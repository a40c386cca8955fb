//! Text collected under a byte limit: all of it while it fits, then its head
//! and its tail around a marker.

use std::collections::VecDeque;
use vstd::prelude::*;
use vstd::utf8::encode_scalar;
use vstd::utf8::encode_utf8;

use crate::text::chars_of;
use crate::text::string_of;

verus! {

/// Bytes of one character in UTF-8.
pub open spec fn utf8_width(c: char) -> int {
    let v = c as u32;
    if v <= 0x7f {
        1
    } else if v <= 0x7ff {
        2
    } else if v <= 0xffff {
        3
    } else {
        4
    }
}

/// Bytes of a text in UTF-8.
pub open spec fn utf8_len(text: Seq<char>) -> int
    decreases text.len(),
{
    if text.len() == 0 {
        0
    } else {
        utf8_len(text.drop_last()) + utf8_width(text.last())
    }
}

/// Bytes of one character in UTF-8.
pub fn len_utf8(c: char) -> (n: usize)
    ensures
        n == utf8_width(c),
        1 <= n <= 4,
{
    let v: u32 = c as u32;
    if v <= 0x7f {
        1
    } else if v <= 0x7ff {
        2
    } else if v <= 0xffff {
        3
    } else {
        4
    }
}

/// Byte lengths add up.
pub proof fn lemma_utf8_len_add(a: Seq<char>, b: Seq<char>)
    ensures
        utf8_len(a + b) == utf8_len(a) + utf8_len(b),
    decreases b.len(),
{
    if b.len() == 0 {
        assert(a + b =~= a);
    } else {
        lemma_utf8_len_add(a, b.drop_last());
        assert((a + b).drop_last() =~= a + b.drop_last());
    }
}

/// A text has at least as many bytes as characters.
pub proof fn lemma_utf8_len_bounds(text: Seq<char>)
    ensures
        text.len() <= utf8_len(text) <= 4 * text.len(),
    decreases text.len(),
{
    if text.len() > 0 {
        lemma_utf8_len_bounds(text.drop_last());
    }
}

/// The byte length counts the bytes of the encoding.
pub proof fn lemma_utf8_len_encodes(text: Seq<char>)
    ensures
        encode_utf8(text).len() == utf8_len(text),
    decreases text.len(),
{
    if text.len() > 0 {
        lemma_utf8_len_encodes(text.drop_first());
        let head = seq![text[0]];
        assert(head + text.drop_first() =~= text);
        lemma_utf8_len_add(head, text.drop_first());
        assert(head.drop_last() =~= Seq::<char>::empty());
        assert(utf8_len(head) == utf8_width(text[0])) by {
            reveal_with_fuel(utf8_len, 2);
        }
        assert(encode_scalar(text[0] as u32).len() == utf8_width(text[0])) by {
            vstd::utf8::char_is_scalar(text[0]);
        }
    }
}

/// Number of characters in the longest prefix of at most `budget` bytes.
pub open spec fn prefix_fit(text: Seq<char>, budget: int) -> int
    decreases text.len(),
{
    if text.len() == 0 || utf8_width(text[0]) > budget {
        0
    } else {
        1 + prefix_fit(text.drop_first(), budget - utf8_width(text[0]))
    }
}

/// The longest suffix of at most `budget` bytes.
pub open spec fn suffix_fit(text: Seq<char>, budget: int) -> Seq<char>
    decreases text.len(),
{
    if text.len() == 0 || utf8_width(text.last()) > budget {
        Seq::empty()
    } else {
        suffix_fit(text.drop_last(), budget - utf8_width(text.last())).push(text.last())
    }
}

/// Stands for the part that was left out.
pub open spec fn truncation_marker() -> Seq<char> {
    "\n… output truncated …\n"@
}

/// Bytes of the marker.
pub const TRUNCATION_MARKER_BYTES: usize = 26;

/// The marker, where the limit leaves room for text beside it.
pub open spec fn marker_within(max_bytes: int) -> Seq<char> {
    if max_bytes >= TRUNCATION_MARKER_BYTES + 2 {
        truncation_marker()
    } else {
        Seq::empty()
    }
}

/// Bytes of the marker, where the limit leaves room for text beside it.
pub open spec fn marker_bytes_within(max_bytes: int) -> int {
    if max_bytes >= TRUNCATION_MARKER_BYTES + 2 {
        TRUNCATION_MARKER_BYTES as int
    } else {
        0
    }
}

/// The head that is kept of a text that does not fit.
pub open spec fn kept_head(text: Seq<char>, max_bytes: int) -> Seq<char> {
    text.take(prefix_fit(text, (max_bytes - marker_bytes_within(max_bytes)) / 2))
}

/// The tail that is kept of a text that does not fit.
pub open spec fn kept_tail(text: Seq<char>, max_bytes: int) -> Seq<char> {
    let head = kept_head(text, max_bytes);
    suffix_fit(
        text.skip(head.len() as int),
        max_bytes - marker_bytes_within(max_bytes) - utf8_len(head),
    )
}

/// `text` within `max_bytes` bytes: all of it where it fits, otherwise head,
/// marker and tail.
pub open spec fn bounded(text: Seq<char>, max_bytes: int) -> Seq<char> {
    if utf8_len(text) <= max_bytes {
        text
    } else {
        kept_head(text, max_bytes) + marker_within(max_bytes) + kept_tail(text, max_bytes)
    }
}

/// The marker has the bytes that it is accounted with.
pub proof fn lemma_marker()
    ensures
        utf8_len(truncation_marker()) == TRUNCATION_MARKER_BYTES,
{
    reveal_strlit("\n… output truncated …\n");
    let m = truncation_marker();
    assert(m.len() == 22);
    reveal_with_fuel(utf8_len, 23);
}

/// The longest fitting prefix fits.
pub proof fn lemma_prefix_fit(text: Seq<char>, budget: int)
    requires
        budget >= 0,
    ensures
        0 <= prefix_fit(text, budget) <= text.len(),
        utf8_len(text.take(prefix_fit(text, budget))) <= budget,
    decreases text.len(),
{
    let n = prefix_fit(text, budget);
    if text.len() == 0 || utf8_width(text[0]) > budget {
        assert(text.take(0) =~= Seq::<char>::empty());
    } else {
        let w = utf8_width(text[0]);
        lemma_prefix_fit(text.drop_first(), budget - w);
        assert(text.take(n) =~= seq![text[0]] + text.drop_first().take(n - 1));
        lemma_utf8_len_add(seq![text[0]], text.drop_first().take(n - 1));
        assert(seq![text[0]].drop_last() =~= Seq::<char>::empty());
        reveal_with_fuel(utf8_len, 2);
    }
}

/// More text behind a text that does not fit leaves its fitting prefix as it
/// is.
pub proof fn lemma_prefix_fit_push(text: Seq<char>, c: char, budget: int)
    requires
        utf8_len(text.push(c)) > budget,
        budget >= 0,
    ensures
        prefix_fit(text.push(c), budget) == prefix_fit(text, budget),
    decreases text.len(),
{
    let longer = text.push(c);
    if text.len() == 0 {
        assert(longer.drop_last() =~= text);
        assert(utf8_len(longer) == utf8_width(c)) by {
            reveal_with_fuel(utf8_len, 2);
        }
    } else if utf8_width(text[0]) <= budget {
        let w = utf8_width(text[0]);
        assert(longer.drop_first() =~= text.drop_first().push(c));
        assert(longer =~= seq![text[0]] + text.drop_first().push(c));
        lemma_utf8_len_add(seq![text[0]], text.drop_first().push(c));
        assert(seq![text[0]].drop_last() =~= Seq::<char>::empty());
        assert(utf8_len(seq![text[0]]) == w) by {
            reveal_with_fuel(utf8_len, 2);
        }
        lemma_prefix_fit_push(text.drop_first(), c, budget - w);
    }
}

/// The longest fitting suffix fits, and a text that fits is its own.
pub proof fn lemma_suffix_fit(text: Seq<char>, budget: int)
    requires
        budget >= 0,
    ensures
        utf8_len(suffix_fit(text, budget)) <= budget,
        utf8_len(text) <= budget ==> suffix_fit(text, budget) == text,
        suffix_fit(text, budget).len() <= text.len(),
    decreases text.len(),
{
    if text.len() > 0 {
        lemma_utf8_len_bounds(text.drop_last());
        if utf8_width(text.last()) <= budget {
            let inner = suffix_fit(text.drop_last(), budget - utf8_width(text.last()));
            lemma_suffix_fit(text.drop_last(), budget - utf8_width(text.last()));
            assert(inner.push(text.last()).drop_last() =~= inner);
            if utf8_len(text) <= budget {
                assert(inner.push(text.last()) =~= text);
            }
        }
    }
}

/// Dropping the first character of a text that does not fit leaves its fitting
/// suffix as it is.
pub proof fn lemma_suffix_fit_drop_first(text: Seq<char>, budget: int)
    requires
        utf8_len(text) > budget,
        budget >= 0,
        text.len() > 0,
    ensures
        suffix_fit(text.drop_first(), budget) == suffix_fit(text, budget),
    decreases text.len(),
{
    if text.len() == 1 {
        assert(text.drop_last() =~= Seq::<char>::empty());
        assert(utf8_len(text) == utf8_width(text.last())) by {
            reveal_with_fuel(utf8_len, 2);
        }
        assert(text.drop_first() =~= Seq::<char>::empty());
    } else {
        assert(text.drop_first().last() == text.last());
        if utf8_width(text.last()) <= budget {
            assert(text.drop_first().drop_last() =~= text.drop_last().drop_first());
            lemma_suffix_fit_drop_first(text.drop_last(), budget - utf8_width(text.last()));
        }
    }
}

/// A smaller budget can be served from a larger one.
pub proof fn lemma_suffix_fit_nested(text: Seq<char>, large: int, small: int)
    requires
        0 <= small <= large,
    ensures
        suffix_fit(suffix_fit(text, large), small) == suffix_fit(text, small),
    decreases text.len(),
{
    if text.len() > 0 && utf8_width(text.last()) <= large {
        let w = utf8_width(text.last());
        let inner = suffix_fit(text.drop_last(), large - w);
        assert(suffix_fit(text, large) == inner.push(text.last()));
        assert(inner.push(text.last()).drop_last() =~= inner);
        if w <= small {
            lemma_suffix_fit_nested(text.drop_last(), large - w, small - w);
        }
    }
}

/// Whatever is collected, the result stays within the limit.
pub proof fn bounded_text_fits(text: Seq<char>, max_bytes: int)
    requires
        max_bytes >= 0,
    ensures
        utf8_len(bounded(text, max_bytes)) <= max_bytes,
{
    if utf8_len(text) > max_bytes {
        lemma_marker();
        let marker = marker_within(max_bytes);
        let payload = max_bytes - marker_bytes_within(max_bytes);
        lemma_prefix_fit(text, payload / 2);
        let head = kept_head(text, max_bytes);
        lemma_suffix_fit(text.skip(head.len() as int), payload - utf8_len(head));
        lemma_utf8_len_add(head, marker);
        lemma_utf8_len_add(head + marker, kept_tail(text, max_bytes));
    }
}

/// Text with what is known of the part that was left out.
#[derive(Debug)]
pub struct ExtractedText {
    pub text: String,
    pub truncated: bool,
    pub total_bytes: usize,
}

/// `n` or the largest `usize`.
pub open spec fn capped(n: int) -> usize {
    if n > usize::MAX {
        usize::MAX
    } else {
        n as usize
    }
}

impl ExtractedText {
    /// The result of collecting `text` under the limit `max_bytes`.
    pub open spec fn holds(&self, text: Seq<char>, max_bytes: int) -> bool {
        &&& self.text@ == bounded(text, max_bytes)
        &&& self.truncated == (utf8_len(text) > max_bytes)
        &&& self.total_bytes == capped(utf8_len(text))
    }
}

/// Collects characters one by one in bounded space.
pub struct BoundedTextBuilder {
    pub max_bytes: usize,
    pub total_bytes: usize,
    pub head: Vec<char>,
    pub head_bytes: usize,
    pub tail: VecDeque<char>,
    pub tail_bytes: usize,
    pub tail_budget: usize,
    pub truncated: bool,
    pub seen: Ghost<Seq<char>>,
}

impl BoundedTextBuilder {
    /// The state is the one that collecting `seen` leads to.
    pub open spec fn wf(&self) -> bool {
        let seen = self.seen@;
        let max = self.max_bytes as int;
        &&& self.total_bytes == capped(utf8_len(seen))
        &&& self.truncated == (utf8_len(seen) > max)
        &&& self.head_bytes == utf8_len(self.head@)
        &&& !self.truncated ==> self.head@ == seen && self.tail@.len() == 0
        &&& self.truncated ==> {
            &&& self.head@ == kept_head(seen, max)
            &&& self.tail_budget == max - marker_bytes_within(max) - utf8_len(self.head@)
            &&& self.tail@ == suffix_fit(seen.skip(self.head@.len() as int), self.tail_budget as int)
            &&& self.tail_bytes == utf8_len(self.tail@)
        }
    }

    /// Nothing collected yet.
    pub fn new(max_bytes: usize) -> (builder: BoundedTextBuilder)
        ensures
            builder.wf(),
            builder.max_bytes == max_bytes,
            builder.seen@ == Seq::<char>::empty(),
    {
        BoundedTextBuilder {
            max_bytes,
            total_bytes: 0,
            head: Vec::new(),
            head_bytes: 0,
            tail: VecDeque::new(),
            tail_bytes: 0,
            tail_budget: 0,
            truncated: false,
            seen: Ghost(Seq::empty()),
        }
    }

    /// Adds one character to the rolling tail of a text that does not fit.
    fn push_tail(&mut self, ch: char, rest: Ghost<Seq<char>>)
        requires
            old(self).tail@ == suffix_fit(rest@, old(self).tail_budget as int),
            old(self).tail_bytes == utf8_len(old(self).tail@),
        ensures
            final(self).tail@ == suffix_fit(rest@.push(ch), final(self).tail_budget as int),
            final(self).tail_bytes == utf8_len(final(self).tail@),
            *final(self) == (BoundedTextBuilder {
                tail: final(self).tail,
                tail_bytes: final(self).tail_bytes,
                ..*old(self)
            }),
    {
        let w: usize = len_utf8(ch);
        let budget: usize = self.tail_budget;
        proof {
            assert(rest@.push(ch).drop_last() =~= rest@);
            lemma_suffix_fit(rest@, budget as int);
        }
        if w > budget {
            self.tail.clear();
            self.tail_bytes = 0;
            return;
        }
        let room: usize = budget - w;
        proof {
            lemma_suffix_fit_nested(rest@, budget as int, room as int);
        }
        while self.tail_bytes > room
            invariant
                room == budget - w,
                self.tail_bytes <= budget,
                self.tail_bytes == utf8_len(self.tail@),
                suffix_fit(self.tail@, room as int) == suffix_fit(rest@, room as int),
                *self == (BoundedTextBuilder {
                    tail: self.tail,
                    tail_bytes: self.tail_bytes,
                    ..*old(self)
                }),
            decreases self.tail@.len(),
        {
            let ghost before = self.tail@;
            proof {
                assert(before.len() > 0);
                lemma_suffix_fit_drop_first(before, room as int);
                assert(seq![before[0]] + before.drop_first() =~= before);
                lemma_utf8_len_add(seq![before[0]], before.drop_first());
                assert(seq![before[0]].drop_last() =~= Seq::<char>::empty());
                assert(utf8_len(seq![before[0]]) == utf8_width(before[0])) by {
                    reveal_with_fuel(utf8_len, 2);
                }
                lemma_utf8_len_bounds(before.drop_first());
            }
            if let Some(removed) = self.tail.pop_front() {
                assert(self.tail@ =~= before.drop_first());
                self.tail_bytes = self.tail_bytes - len_utf8(removed);
            }
        }
        proof {
            lemma_suffix_fit(self.tail@, room as int);
            assert(self.tail@.push(ch).drop_last() =~= self.tail@);
        }
        self.tail.push_back(ch);
        self.tail_bytes = self.tail_bytes + w;
    }

    /// Splits a text that just ceased to fit into head and rolling tail.
    fn split_head(&mut self)
        requires
            !old(self).truncated,
            old(self).head_bytes == utf8_len(old(self).head@),
            old(self).head_bytes <= old(self).max_bytes,
            old(self).tail@.len() == 0,
        ensures
            final(self).head@ == kept_head(old(self).head@, old(self).max_bytes as int),
            final(self).head_bytes == utf8_len(final(self).head@),
            final(self).tail_budget == old(self).max_bytes - marker_bytes_within(
                old(self).max_bytes as int,
            ) - utf8_len(final(self).head@),
            final(self).tail@ == suffix_fit(
                old(self).head@.skip(final(self).head@.len() as int),
                final(self).tail_budget as int,
            ),
            final(self).tail_bytes == utf8_len(final(self).tail@),
            final(self).truncated,
            final(self).max_bytes == old(self).max_bytes,
            final(self).total_bytes == old(self).total_bytes,
            final(self).seen == old(self).seen,
    {
        let ghost text = self.head@;
        let marker: usize = if self.max_bytes >= TRUNCATION_MARKER_BYTES + 2 {
            TRUNCATION_MARKER_BYTES
        } else {
            0
        };
        let payload: usize = self.max_bytes - marker;
        let half: usize = payload / 2;
        let mut kept: usize = 0;
        let mut kept_bytes: usize = 0;
        assert(text.skip(0) =~= text);
        assert(text.take(0) =~= Seq::<char>::empty());
        while kept < self.head.len() && len_utf8(self.head[kept]) <= half - kept_bytes
            invariant
                text == self.head@,
                *self == *old(self),
                kept <= text.len(),
                kept_bytes <= half,
                kept_bytes == utf8_len(text.take(kept as int)),
                prefix_fit(text, half as int) == kept + prefix_fit(
                    text.skip(kept as int),
                    half - kept_bytes,
                ),
            decreases text.len() - kept,
        {
            proof {
                assert(text.skip(kept as int).drop_first() =~= text.skip(kept + 1));
                assert(text.take(kept + 1).drop_last() =~= text.take(kept as int));
            }
            kept_bytes = kept_bytes + len_utf8(self.head[kept]);
            kept = kept + 1;
        }
        assert(kept == prefix_fit(text, half as int));
        self.truncated = true;
        self.tail_budget = payload - kept_bytes;
        self.tail_bytes = 0;
        let ghost head = text.take(kept as int);
        let mut i: usize = kept;
        assert(text.subrange(kept as int, kept as int) =~= Seq::<char>::empty());
        assert(self.tail@ =~= Seq::<char>::empty());
        while i < self.head.len()
            invariant
                kept <= i <= text.len(),
                text == self.head@,
                self.truncated,
                self.max_bytes == old(self).max_bytes,
                self.total_bytes == old(self).total_bytes,
                self.seen == old(self).seen,
                self.tail_budget == payload - kept_bytes,
                self.tail_bytes == utf8_len(self.tail@),
                self.tail@ == suffix_fit(
                    text.subrange(kept as int, i as int),
                    self.tail_budget as int,
                ),
            decreases text.len() - i,
        {
            let ch = self.head[i];
            self.push_tail(ch, Ghost(text.subrange(kept as int, i as int)));
            i = i + 1;
            assert(text.subrange(kept as int, i as int) =~= text.subrange(
                kept as int,
                i - 1,
            ).push(ch));
        }
        assert(text.subrange(kept as int, i as int) =~= text.skip(kept as int));
        self.head.truncate(kept);
        self.head_bytes = kept_bytes;
        assert(self.head@ =~= head);
    }

    /// Collects one more character.
    pub fn push(&mut self, ch: char)
        requires
            old(self).wf(),
        ensures
            final(self).wf(),
            final(self).max_bytes == old(self).max_bytes,
            final(self).seen@ == old(self).seen@.push(ch),
    {
        let w: usize = len_utf8(ch);
        let ghost before = self.seen@;
        let ghost after = before.push(ch);
        proof {
            assert(after.drop_last() =~= before);
            lemma_utf8_len_bounds(before);
        }
        self.total_bytes = self.total_bytes.saturating_add(w);
        self.seen = Ghost(after);
        if !self.truncated && w <= self.max_bytes - self.head_bytes {
            self.head.push(ch);
            self.head_bytes = self.head_bytes + w;
            return;
        }
        if !self.truncated {
            proof {
                let max = self.max_bytes as int;
                let half = (max - marker_bytes_within(max)) / 2;
                lemma_prefix_fit_push(before, ch, half);
                lemma_prefix_fit(before, half);
                assert(after.take(prefix_fit(before, half)) =~= before.take(
                    prefix_fit(before, half),
                ));
            }
            self.split_head();
        } else {
            proof {
                let max = self.max_bytes as int;
                let half = (max - marker_bytes_within(max)) / 2;
                lemma_prefix_fit_push(before, ch, half);
                lemma_prefix_fit(before, half);
                assert(after.take(prefix_fit(before, half)) =~= before.take(
                    prefix_fit(before, half),
                ));
            }
        }
        let ghost rest = before.skip(self.head@.len() as int);
        assert(after.skip(self.head@.len() as int) =~= rest.push(ch));
        self.push_tail(ch, Ghost(rest));
    }

    /// The collected text.
    pub fn finish(self) -> (result: ExtractedText)
        requires
            self.wf(),
        ensures
            result.holds(self.seen@, self.max_bytes as int),
    {
        let max: usize = self.max_bytes;
        let mut chars = self.head;
        if self.truncated {
            let ghost head = chars@;
            if max >= TRUNCATION_MARKER_BYTES + 2 {
                let marker = chars_of("\n… output truncated …\n");
                let mut m: usize = 0;
                assert(marker@.take(0) =~= Seq::<char>::empty());
                while m < marker.len()
                    invariant
                        m <= marker@.len(),
                        chars@ == head + marker@.take(m as int),
                    decreases marker.len() - m,
                {
                    chars.push(marker[m]);
                    m = m + 1;
                    assert(chars@ =~= head + marker@.take(m as int));
                }
                assert(marker@.take(m as int) =~= marker@);
            }
            let ghost lead = chars@;
            assert(lead =~= head + marker_within(max as int));
            let tail = self.tail;
            let mut t: usize = 0;
            assert(tail@.take(0) =~= Seq::<char>::empty());
            while t < tail.len()
                invariant
                    t <= tail@.len(),
                    chars@ == lead + tail@.take(t as int),
                decreases tail@.len() - t,
            {
                chars.push(tail[t]);
                t = t + 1;
                assert(chars@ =~= lead + tail@.take(t as int));
            }
            assert(tail@.take(t as int) =~= tail@);
        }
        ExtractedText {
            text: string_of(&chars),
            truncated: self.truncated,
            total_bytes: self.total_bytes,
        }
    }
}

} // verus!
