//! Lays out documents that fold nothing.

use std::collections::VecDeque;
use std::sync::Arc;
use vstd::prelude::*;

use crate::grid::Line;
use crate::history::content_len;
use crate::history::history_lines;
use crate::history::ScrollbackLine;
use crate::plan::broken;
use crate::plan::empty_row;
use crate::plan::fitting;
use crate::plan::glyph_cells;
use crate::plan::glyph_columns;
use crate::plan::glyph_row;
use crate::plan::glyph_rows;
use crate::plan::glyphs_cells;
use crate::plan::glyphs_columns;
use crate::plan::glyphs_from;
use crate::plan::glyphs_of;
use crate::plan::history_rows;
use crate::plan::identity_rows;
use crate::plan::logical_rows;
use crate::plan::row_models;
use crate::plan::screen_rows;
use crate::plan::show_cell;
use crate::plan::shown;
use crate::plan::Glyph;
use crate::plan::PlanRow;
use crate::plan::PlanRowModel;
use crate::plan::RawSlice;
use crate::plan::RowSource;
use crate::plan::SourceCell;
use crate::projection::ProjectedRowKind;
use crate::state::saturating_sum;
use crate::state::TerminalState;
use crate::view::logical_end;
use crate::view::share;

verus! {

/// The first of several characters takes its columns before the others.
proof fn lemma_columns_front(glyphs: Seq<Glyph>, cols: int)
    requires
        glyphs.len() > 0,
    ensures
        glyphs_columns(glyphs, cols) == glyph_columns(glyphs[0], cols) + glyphs_columns(
            glyphs.skip(1),
            cols,
        ),
    decreases glyphs.len(),
{
    if glyphs.len() == 1 {
        assert(glyphs.drop_last() =~= Seq::<Glyph>::empty());
        assert(glyphs.skip(1) =~= Seq::<Glyph>::empty());
    } else {
        lemma_columns_front(glyphs.drop_last(), cols);
        assert(glyphs.skip(1).drop_last() =~= glyphs.drop_last().skip(1));
        assert(glyphs.skip(1).last() == glyphs.last());
    }
}

/// As many characters fit as take no more than the room that there is.
proof fn lemma_fitting(glyphs: Seq<Glyph>, k: int, room: int, cols: int)
    requires
        0 <= k <= glyphs.len(),
        glyphs_columns(glyphs.take(k), cols) <= room,
        k == glyphs.len() || glyphs_columns(glyphs.take(k), cols) + glyph_columns(glyphs[k], cols)
            > room,
    ensures
        fitting(glyphs, room, cols) == k,
    decreases glyphs.len(),
{
    if k == 0 {
        assert(glyphs.take(0) =~= Seq::<Glyph>::empty());
    } else {
        let rest = glyphs.skip(1);
        lemma_columns_front(glyphs.take(k), cols);
        assert(glyphs.take(k).skip(1) =~= rest.take(k - 1));
        lemma_columns_nonnegative(rest.take(k - 1), cols);
        lemma_fitting(rest, k - 1, room - glyph_columns(glyphs[0], cols), cols);
    }
}

/// Characters take no negative number of columns.
proof fn lemma_columns_nonnegative(glyphs: Seq<Glyph>, cols: int)
    ensures
        glyphs_columns(glyphs, cols) >= glyphs.len(),
        glyphs_cells(glyphs, cols).len() == glyphs_columns(glyphs, cols),
    decreases glyphs.len(),
{
    if glyphs.len() > 0 {
        lemma_columns_nonnegative(glyphs.drop_last(), cols);
    }
}

/// A full row is broken off where the next character does not fit.
proof fn lemma_break(laid: Seq<Glyph>, rest: Seq<Glyph>, cols: int)
    requires
        laid.len() > 0,
        glyphs_columns(laid, cols) <= cols,
        rest.len() == 0 || glyphs_columns(laid, cols) + glyph_columns(rest[0], cols) > cols,
    ensures
        broken(laid + rest, cols) == seq![laid] + broken(rest, cols),
{
    let all = laid + rest;
    assert(all.take(laid.len() as int) =~= laid);
    assert(all.skip(laid.len() as int) =~= rest);
    lemma_fitting(all, laid.len() as int, cols, cols);
}

/// The rows that come of full rows `full`, characters `laid` on the row in
/// work and the characters `rest`.
pub open spec fn outcome(full: Seq<Seq<Glyph>>, laid: Seq<Glyph>, rest: Seq<Glyph>, cols: int) -> Seq<
    Seq<Glyph>,
> {
    full + broken(laid + rest, cols)
}

/// Rows of a logical line in the making.
struct RowBuilder {
    cols: usize,
    done: Vec<Arc<PlanRow>>,
    slices: Vec<RawSlice>,
    used: usize,
    source: Option<RowSource>,
    full: Ghost<Seq<Seq<Glyph>>>,
    laid: Ghost<Seq<Glyph>>,
}

impl RowBuilder {
    /// What has been built is what the characters so far fill.
    spec fn wf(self) -> bool {
        let cells = glyphs_cells(self.laid@, self.cols as int);
        &&& self.cols >= 1
        &&& self.used == glyphs_columns(self.laid@, self.cols as int)
        &&& self.used == cells.len()
        &&& self.used <= self.cols
        &&& forall|j: int| #[trigger]
            shown(self.slices@, j) == if 0 <= j < self.used {
                Some(cells[j])
            } else {
                None
            }
        &&& self.laid@.len() > 0 ==> self.source == Some(
            RowSource { row: self.laid@[0].row, line: self.laid@[0].line },
        )
        &&& row_models(self.done@, self.cols as int) == Seq::new(
            self.full@.len(),
            |k: int| glyph_row(self.full@[k], self.cols as int, true),
        )
    }

    /// Nothing built yet.
    fn new(cols: usize) -> (builder: RowBuilder)
        requires
            cols >= 1,
        ensures
            builder.wf(),
            builder.cols == cols,
            builder.full@ == Seq::<Seq<Glyph>>::empty(),
            builder.laid@ == Seq::<Glyph>::empty(),
    {
        let builder = RowBuilder {
            cols,
            done: Vec::new(),
            slices: Vec::new(),
            used: 0,
            source: None,
            full: Ghost(Seq::empty()),
            laid: Ghost(Seq::empty()),
        };
        assert(row_models(builder.done@, cols as int) =~= Seq::new(
            builder.full@.len(),
            |k: int| glyph_row(builder.full@[k], cols as int, true),
        ));
        builder
    }

    /// The row in work.
    fn take_row(&mut self, wrapped: bool) -> (row: PlanRow)
        requires
            old(self).wf(),
            old(self).laid@.len() > 0,
        ensures
            row.model(old(self).cols as int) == glyph_row(
                old(self).laid@,
                old(self).cols as int,
                wrapped,
            ),
            final(self).wf(),
            final(self).cols == old(self).cols,
            final(self).full@ == old(self).full@,
            final(self).done@ == old(self).done@,
            final(self).laid@ == Seq::<Glyph>::empty(),
    {
        let mut slices: Vec<RawSlice> = Vec::new();
        std::mem::swap(&mut slices, &mut self.slices);
        let row = PlanRow {
            slices,
            wrapped,
            kind: ProjectedRowKind::Raw,
            source: self.source,
        };
        assert(row.model(self.cols as int).cells =~= glyph_row(
            self.laid@,
            self.cols as int,
            wrapped,
        ).cells);
        self.used = 0;
        self.source = None;
        self.laid = Ghost(Seq::empty());
        row
    }

    /// Begins a new row below the one in work.
    fn break_row(&mut self)
        requires
            old(self).wf(),
            old(self).laid@.len() > 0,
        ensures
            final(self).wf(),
            final(self).cols == old(self).cols,
            final(self).full@ == old(self).full@.push(old(self).laid@),
            final(self).laid@ == Seq::<Glyph>::empty(),
    {
        let ghost laid = self.laid@;
        let ghost full = self.full@;
        let ghost done = self.done@;
        let row = self.take_row(true);
        self.done.push(Arc::new(row));
        self.full = Ghost(full.push(laid));
        assert(row_models(self.done@, self.cols as int) =~= row_models(
            done,
            self.cols as int,
        ).push(glyph_row(laid, self.cols as int, true)));
        assert(row_models(self.done@, self.cols as int) =~= Seq::new(
            self.full@.len(),
            |k: int| glyph_row(self.full@[k], self.cols as int, true),
        ));
    }

    /// Shows a character on the row in work.
    fn show(&mut self, glyph: Glyph, columns: usize)
        requires
            old(self).wf(),
            columns == glyph_columns(glyph, old(self).cols as int),
            old(self).used + columns <= old(self).cols,
        ensures
            final(self).wf(),
            final(self).cols == old(self).cols,
            final(self).full@ == old(self).full@,
            final(self).laid@ == old(self).laid@.push(glyph),
    {
        let ghost before = glyphs_cells(self.laid@, self.cols as int);
        let ghost after = glyphs_cells(self.laid@.push(glyph), self.cols as int);
        proof {
            assert(self.laid@.push(glyph).drop_last() =~= self.laid@);
            assert(after == before + glyph_cells(glyph, self.cols as int));
            lemma_columns_nonnegative(self.laid@.push(glyph), self.cols as int);
        }
        if self.used == 0 {
            proof {
                lemma_columns_nonnegative(self.laid@, self.cols as int);
            }
            self.source = Some(RowSource { row: glyph.row, line: glyph.line });
        }
        let first = SourceCell {
            line: glyph.line,
            row: glyph.row,
            column: glyph.column,
            narrow: glyph.wide && columns == 1,
        };
        show_cell(&mut self.slices, first, self.used);
        if columns == 2 {
            let second = SourceCell { column: glyph.column.saturating_add(1), ..first };
            show_cell(&mut self.slices, second, self.used + 1);
        }
        self.used = self.used + columns;
        self.laid = Ghost(self.laid@.push(glyph));
    }

    /// Adds a character.
    fn place(&mut self, glyph: Glyph)
        requires
            old(self).wf(),
        ensures
            final(self).wf(),
            final(self).cols == old(self).cols,
            final(self).laid@.len() > 0,
            forall|rest: Seq<Glyph>| #[trigger]
                outcome(final(self).full@, final(self).laid@, rest, final(self).cols as int)
                    == outcome(
                    old(self).full@,
                    old(self).laid@,
                    seq![glyph] + rest,
                    old(self).cols as int,
                ),
    {
        let columns: usize = if glyph.wide && self.cols >= 2 {
            2
        } else {
            1
        };
        let ghost start = *self;
        if columns > self.cols - self.used {
            proof {
                lemma_columns_nonnegative(self.laid@, self.cols as int);
            }
            self.break_row();
            assert forall|rest: Seq<Glyph>| #[trigger]
                outcome(self.full@, Seq::empty(), seq![glyph] + rest, self.cols as int)
                    == outcome(start.full@, start.laid@, seq![glyph] + rest, start.cols as int) by {
                let tail = seq![glyph] + rest;
                lemma_break(start.laid@, tail, start.cols as int);
                assert(Seq::<Glyph>::empty() + tail =~= tail);
                assert(start.full@ + (seq![start.laid@] + broken(tail, start.cols as int))
                    =~= self.full@ + broken(tail, start.cols as int));
            }
        }
        let ghost mid = *self;
        self.show(glyph, columns);
        assert forall|rest: Seq<Glyph>| #[trigger]
            outcome(self.full@, self.laid@, rest, self.cols as int) == outcome(
                start.full@,
                start.laid@,
                seq![glyph] + rest,
                start.cols as int,
            ) by {
            assert(mid.laid@.push(glyph) + rest =~= mid.laid@ + (seq![glyph] + rest));
            assert(outcome(mid.full@, mid.laid@, seq![glyph] + rest, mid.cols as int) == outcome(
                start.full@,
                start.laid@,
                seq![glyph] + rest,
                start.cols as int,
            ));
        }
    }

    /// The finished rows.
    fn finish(self) -> (rows: Vec<Arc<PlanRow>>)
        requires
            self.wf(),
            self.laid@.len() > 0,
        ensures
            row_models(rows@, self.cols as int) == glyph_rows(
                outcome(self.full@, self.laid@, Seq::empty(), self.cols as int),
                self.cols as int,
            ),
    {
        let mut builder = self;
        let ghost cols = self.cols as int;
        let row = builder.take_row(false);
        builder.done.push(Arc::new(row));
        proof {
            lemma_break(self.laid@, Seq::empty(), cols);
            assert(broken(Seq::empty(), cols) =~= Seq::empty());
            let all = outcome(self.full@, self.laid@, Seq::empty(), cols);
            assert(all =~= self.full@.push(self.laid@));
            let models = row_models(builder.done@, cols);
            assert(row_models(self.done@, cols).len() == self.full@.len());
            assert(self.done@.len() == self.full@.len());
            assert forall|k: int| 0 <= k < models.len() implies models[k] == glyph_rows(
                all,
                cols,
            )[k] by {
                if k < self.full@.len() {
                    assert(models[k] == row_models(self.done@, cols)[k]);
                }
            }
            assert(models =~= glyph_rows(all, cols));
        }
        builder.done
    }
}

/// Adds the characters of a row.
fn place_row(builder: &mut RowBuilder, line: &ScrollbackLine, number: u64)
    requires
        old(builder).wf(),
    ensures
        final(builder).wf(),
        final(builder).cols == old(builder).cols,
        content_len(line@.cells) > 0 ==> final(builder).laid@.len() > 0,
        old(builder).laid@.len() > 0 ==> final(builder).laid@.len() > 0,
        content_len(line@.cells) <= 0 ==> *final(builder) == *old(builder),
        forall|rest: Seq<Glyph>| #[trigger]
            outcome(final(builder).full@, final(builder).laid@, rest, final(builder).cols as int)
                == outcome(
                old(builder).full@,
                old(builder).laid@,
                glyphs_from(line@, number, 0, content_len(line@.cells)) + rest,
                old(builder).cols as int,
            ),
{
    let len: usize = line.reflow_content_len();
    let ghost start = *builder;
    let mut c: usize = 0;
    while c < len
        invariant
            c <= len <= line.cells@.len(),
            line@.cells == line.cells@,
            builder.wf(),
            builder.cols == start.cols,
            c > 0 ==> builder.laid@.len() > 0,
            start.laid@.len() > 0 ==> builder.laid@.len() > 0,
            c == 0 ==> *builder == start,
            forall|rest: Seq<Glyph>| #[trigger]
                outcome(
                    builder.full@,
                    builder.laid@,
                    glyphs_from(line@, number, c as int, len as int) + rest,
                    builder.cols as int,
                ) == outcome(
                    start.full@,
                    start.laid@,
                    glyphs_from(line@, number, 0, len as int) + rest,
                    start.cols as int,
                ),
        decreases len - c,
    {
        let wide = c < len - 1 && line.cells[c + 1].flags.wide_continuation();
        let glyph = Glyph { line: number, row: line.row_id, column: c, wide };
        let ghost before = *builder;
        let ghost from = c as int;
        builder.place(glyph);
        c = if wide {
            c + 2
        } else {
            c + 1
        };
        assert forall|rest: Seq<Glyph>| #[trigger]
            outcome(
                builder.full@,
                builder.laid@,
                glyphs_from(line@, number, c as int, len as int) + rest,
                builder.cols as int,
            ) == outcome(
                start.full@,
                start.laid@,
                glyphs_from(line@, number, 0, len as int) + rest,
                start.cols as int,
            ) by {
            let tail = glyphs_from(line@, number, c as int, len as int) + rest;
            assert(seq![glyph] + tail =~= glyphs_from(line@, number, from, len as int) + rest);
            assert(outcome(builder.full@, builder.laid@, tail, builder.cols as int) == outcome(
                before.full@,
                before.laid@,
                seq![glyph] + tail,
                before.cols as int,
            ));
        }
    }
    assert forall|rest: Seq<Glyph>| #[trigger]
        outcome(builder.full@, builder.laid@, rest, builder.cols as int) == outcome(
            start.full@,
            start.laid@,
            glyphs_from(line@, number, 0, len as int) + rest,
            start.cols as int,
        ) by {
        assert(glyphs_from(line@, number, c as int, len as int) + rest =~= rest);
    }
}

/// The rows of the logical line in the rows `from..to`.
fn lay_logical_line(
    lines: &VecDeque<ScrollbackLine>,
    first: u64,
    from: usize,
    to: usize,
    cols: usize,
) -> (rows: Vec<Arc<PlanRow>>)
    requires
        from < to <= lines@.len(),
        cols >= 1,
    ensures
        row_models(rows@, cols as int) == logical_rows(
            history_lines(lines@),
            first,
            from as int,
            to as int,
            cols as int,
        ),
{
    let ghost all = history_lines(lines@);
    let ghost glyphs = glyphs_of(all, first, from as int, to as int);
    let mut builder = RowBuilder::new(cols);
    let mut r: usize = from;
    assert(Seq::<Glyph>::empty() + glyphs =~= glyphs);
    assert(Seq::<Seq<Glyph>>::empty() + broken(glyphs, cols as int) =~= broken(
        glyphs,
        cols as int,
    ));
    while r < to
        invariant
            from <= r <= to <= lines@.len(),
            all == history_lines(lines@),
            glyphs == glyphs_of(all, first, from as int, to as int),
            builder.wf(),
            builder.cols == cols,
            outcome(
                builder.full@,
                builder.laid@,
                glyphs_of(all, first, r as int, to as int),
                cols as int,
            ) == broken(glyphs, cols as int),
            builder.laid@.len() == 0 ==> glyphs == glyphs_of(all, first, r as int, to as int),
        decreases to - r,
    {
        let line = &lines[r];
        assert(all[r as int] == line@);
        let number: u64 = first.saturating_add(r as u64);
        assert(number == saturating_sum(first, r as int));
        let ghost tail = glyphs_of(all, first, r + 1, to as int);
        let ghost before = builder;
        place_row(&mut builder, line, number);
        r = r + 1;
        proof {
            assert(outcome(builder.full@, builder.laid@, tail, cols as int) == outcome(
                before.full@,
                before.laid@,
                glyphs_of(all, first, r - 1, to as int),
                cols as int,
            ));
            if builder.laid@.len() == 0 {
                assert(glyphs_of(all, first, r - 1, to as int) =~= tail);
            }
        }
    }
    let empty = builder.used == 0;
    proof {
        lemma_columns_nonnegative(builder.laid@, cols as int);
    }
    if empty {
        let line = &lines[from];
        assert(all[from as int] == line@);
        let number: u64 = first.saturating_add(from as u64);
        let row = PlanRow {
            slices: Vec::new(),
            wrapped: false,
            kind: ProjectedRowKind::Raw,
            source: Some(RowSource { row: line.row_id, line: number }),
        };
        assert(row.model(cols as int).cells =~= empty_row(
            line@,
            number,
            cols as int,
        ).cells);
        let mut rows: Vec<Arc<PlanRow>> = Vec::new();
        rows.push(Arc::new(row));
        assert(row_models(rows@, cols as int) =~= seq![row.model(cols as int)]);
        return rows;
    }
    proof {
        assert(glyphs.len() > 0) by {
            if glyphs.len() == 0 {
                assert(broken(glyphs, cols as int).len() == 0);
                let all_rows = outcome(builder.full@, builder.laid@, Seq::empty(), cols as int);
                lemma_break(builder.laid@, Seq::empty(), cols as int);
                assert(all_rows.len() > 0);
            }
        }
    }
    builder.finish()
}

/// Puts more rows behind `rows`.
pub fn append_rows(rows: &mut Vec<Arc<PlanRow>>, more: &Vec<Arc<PlanRow>>, from: usize, to: usize)
    requires
        from <= to <= more.len(),
    ensures
        final(rows)@ == old(rows)@ + more@.subrange(from as int, to as int),
{
    let ghost before = rows@;
    let mut i: usize = from;
    assert(before + more@.subrange(from as int, from as int) =~= before);
    while i < to
        invariant
            from <= i <= to <= more@.len(),
            rows@ == before + more@.subrange(from as int, i as int),
        decreases to - i,
    {
        rows.push(share(&more[i]));
        i = i + 1;
        assert(rows@ =~= before + more@.subrange(from as int, i as int));
    }
}

/// Values of rows one after the other.
pub proof fn lemma_models_add(a: Seq<Arc<PlanRow>>, b: Seq<Arc<PlanRow>>, cols: int)
    ensures
        row_models(a + b, cols) == row_models(a, cols) + row_models(b, cols),
{
    assert(row_models(a + b, cols) =~= row_models(a, cols) + row_models(b, cols));
}

/// A logical line ends behind its beginning.
pub proof fn lemma_logical_end(lines: Seq<Line>, from: int, end: int)
    requires
        from < end,
    ensures
        from < logical_end(lines, from, end) <= end,
    decreases end - from,
{
    if from + 1 < end && lines[from].wrapped {
        lemma_logical_end(lines, from + 1, end);
    }
}

/// The rows of the history rows `from..end`.
pub fn lay_history(
    lines: &VecDeque<ScrollbackLine>,
    first: u64,
    from: usize,
    end: usize,
    cols: usize,
) -> (rows: Vec<Arc<PlanRow>>)
    requires
        from <= end <= lines@.len(),
        cols >= 1,
    ensures
        row_models(rows@, cols as int) == history_rows(
            history_lines(lines@),
            first,
            from as int,
            end as int,
            cols as int,
        ),
{
    let ghost all = history_lines(lines@);
    let ghost target = history_rows(all, first, from as int, end as int, cols as int);
    let mut rows: Vec<Arc<PlanRow>> = Vec::new();
    let mut source: usize = from;
    assert(row_models(rows@, cols as int) + target =~= target);
    while source < end
        invariant
            from <= source <= end <= lines@.len(),
            cols >= 1,
            all == history_lines(lines@),
            row_models(rows@, cols as int) + history_rows(
                all,
                first,
                source as int,
                end as int,
                cols as int,
            ) == target,
        decreases end - source,
    {
        let mut next: usize = source;
        proof {
            lemma_logical_end(all, source as int, end as int);
        }
        while next < end - 1 && lines[next].is_wrapped
            invariant
                source <= next < end <= lines@.len(),
                all == history_lines(lines@),
                logical_end(all, source as int, end as int) == logical_end(
                    all,
                    next as int,
                    end as int,
                ),
            decreases end - next,
        {
            assert(all[next as int] == lines@[next as int]@);
            next = next + 1;
        }
        assert(all[next as int] == lines@[next as int]@);
        next = next + 1;
        assert(next == logical_end(all, source as int, end as int));
        let line_rows = lay_logical_line(lines, first, source, next, cols);
        let ghost before = rows@;
        let count: usize = line_rows.len();
        append_rows(&mut rows, &line_rows, 0, count);
        proof {
            assert(line_rows@.subrange(0, count as int) =~= line_rows@);
            lemma_models_add(before, line_rows@, cols as int);
            let rest = history_rows(all, first, next as int, end as int, cols as int);
            let own = row_models(line_rows@, cols as int);
            assert((row_models(before, cols as int) + own) + rest =~= row_models(
                before,
                cols as int,
            ) + (own + rest));
        }
        source = next;
    }
    assert(row_models(rows@, cols as int) + Seq::<PlanRowModel>::empty() =~= row_models(
        rows@,
        cols as int,
    ));
    rows
}

impl TerminalState {
    /// Stable number of the oldest retained row.
    pub fn oldest_line(&self) -> (first: u64)
        requires
            self.core_wf(),
        ensures
            first == self.first_line_id(),
    {
        self.total_lines_scrolled - self.scrollback.len() as u64
    }

    /// The rows of the screen as they are.
    pub fn lay_screen(&self, cols: usize) -> (rows: Vec<Arc<PlanRow>>)
        requires
            self.core_wf(),
            cols >= 1,
        ensures
            row_models(rows@, cols as int) == screen_rows(
                self.grid@,
                self.total_lines_scrolled,
                cols as int,
            ),
    {
        let ghost target = screen_rows(self.grid@, self.total_lines_scrolled, cols as int);
        let mut rows: Vec<Arc<PlanRow>> = Vec::new();
        let mut r: usize = 0;
        while r < self.grid.rows()
            invariant
                self.core_wf(),
                cols >= 1,
                r <= self.grid@.len(),
                target == screen_rows(self.grid@, self.total_lines_scrolled, cols as int),
                row_models(rows@, cols as int) == target.take(r as int),
            decreases self.grid@.len() - r,
        {
            let id = self.grid.row_id(r);
            let number: u64 = self.total_lines_scrolled.saturating_add(r as u64);
            let slice = RawSlice {
                line: number,
                row: id,
                column: 0,
                view_column: 0,
                len: cols,
                narrow: false,
            };
            let mut slices: Vec<RawSlice> = Vec::new();
            slices.push(slice);
            let row = PlanRow {
                slices,
                wrapped: self.grid.row_wrapped(r),
                kind: ProjectedRowKind::Raw,
                source: Some(RowSource { row: id, line: number }),
            };
            proof {
                assert(row.slices@.last() == slice);
                assert forall|j: int| 0 <= j < cols implies shown(row.slices@, j)
                    == target[r as int].cells[j] by {
                    assert(slice.covers(j));
                }
                assert(row.model(cols as int).cells =~= target[r as int].cells);
            }
            let ghost before = rows@;
            rows.push(Arc::new(row));
            assert(row_models(rows@, cols as int) =~= row_models(before, cols as int).push(
                target[r as int],
            ));
            r = r + 1;
            assert(target.take(r as int) =~= target.take(r - 1).push(target[r - 1]));
        }
        assert(target.take(r as int) =~= target);
        rows
    }

    /// The document that folds nothing.
    pub fn identity_document(&self, cols: usize) -> (rows: Vec<Arc<PlanRow>>)
        requires
            self.core_wf(),
            cols >= 1,
        ensures
            row_models(rows@, cols as int) == identity_rows(
                self.history(),
                self.grid@,
                self.first_line_id() as u64,
                cols as int,
            ),
    {
        let first: u64 = self.oldest_line();
        let mut rows = lay_history(&self.scrollback, first, 0, self.scrollback.len(), cols);
        let ghost history = rows@;
        let screen = self.lay_screen(cols);
        let count: usize = screen.len();
        append_rows(&mut rows, &screen, 0, count);
        proof {
            assert(screen@.subrange(0, count as int) =~= screen@);
            lemma_models_add(history, screen@, cols as int);
            assert(self.total_lines_scrolled == saturating_sum(
                first,
                self.history().len() as int,
            ));
        }
        rows
    }
}

} // verus!
