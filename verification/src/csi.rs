//! Control sequences: their parameters and the parts around them.

use smallvec::SmallVec;
use vstd::prelude::*;

verus! {

/// The numbers of a control sequence, in a `SmallVec` that keeps up to eight
/// of them in place.
#[verifier::external_body]
pub struct CsiNumbers {
    list: SmallVec<[u16; 8]>,
}

/// For each number of a control sequence whether a colon stands before it, in
/// a `SmallVec` that keeps up to eight of them in place.
#[verifier::external_body]
pub struct CsiColons {
    list: SmallVec<[bool; 8]>,
}

/// What a list of numbers holds, in order.
pub uninterp spec fn numbers_in(list: CsiNumbers) -> Seq<u16>;

/// What a list of colon marks holds, in order.
pub uninterp spec fn colons_in(list: CsiColons) -> Seq<bool>;

/// `SmallVec::new` of the `smallvec` crate: an empty vector.
#[verifier::external_body]
fn no_numbers() -> (list: CsiNumbers)
    ensures
        numbers_in(list) == Seq::<u16>::empty(),
{
    CsiNumbers { list: SmallVec::new() }
}

/// `SmallVec::push` of the `smallvec` crate: the element comes last.
#[verifier::external_body]
fn push_number(list: &mut CsiNumbers, number: u16)
    ensures
        numbers_in(*final(list)) == numbers_in(*old(list)).push(number),
{
    list.list.push(number);
}

/// `SmallVec::len` of the `smallvec` crate: how many elements there are.
#[verifier::external_body]
fn number_count(list: &CsiNumbers) -> (n: usize)
    ensures
        n == numbers_in(*list).len(),
{
    list.list.len()
}

/// Indexing a `SmallVec` of the `smallvec` crate: the element at a position
/// that exists.
#[verifier::external_body]
fn number_at(list: &CsiNumbers, i: usize) -> (number: u16)
    requires
        i < numbers_in(*list).len(),
    ensures
        number == numbers_in(*list)[i as int],
{
    list.list[i]
}

/// `SmallVec::new` of the `smallvec` crate: an empty vector.
#[verifier::external_body]
fn no_colons() -> (list: CsiColons)
    ensures
        colons_in(list) == Seq::<bool>::empty(),
{
    CsiColons { list: SmallVec::new() }
}

/// `SmallVec::push` of the `smallvec` crate: the element comes last.
#[verifier::external_body]
fn push_colon(list: &mut CsiColons, colon: bool)
    ensures
        colons_in(*final(list)) == colons_in(*old(list)).push(colon),
{
    list.list.push(colon);
}

/// Indexing a `SmallVec` of the `smallvec` crate: the element at a position
/// that exists.
#[verifier::external_body]
fn colon_at(list: &CsiColons, i: usize) -> (colon: bool)
    requires
        i < colons_in(*list).len(),
    ensures
        colon == colons_in(*list)[i as int],
{
    list.list[i]
}

/// One parameter: its number, and whether a colon stands before it.
pub struct CsiParam {
    pub number: u16,
    pub colon: bool,
}

/// A parameter with one more decimal digit; the largest number stays.
pub open spec fn with_digit(param: CsiParam, digit: int) -> CsiParam {
    CsiParam {
        number: if param.number * 10 + digit > u16::MAX {
            u16::MAX
        } else {
            (param.number * 10 + digit) as u16
        },
        ..param
    }
}

/// The parameters that `bytes` spells, the last of which may still go on.
/// Other bytes than digits and separators count for nothing.
pub open spec fn open_params(bytes: Seq<u8>) -> Seq<CsiParam>
    decreases bytes.len(),
{
    if bytes.len() == 0 {
        seq![CsiParam { number: 0, colon: false }]
    } else {
        let before = open_params(bytes.drop_last());
        let byte = bytes.last();
        if 0x30 <= byte <= 0x39 {
            before.drop_last().push(with_digit(before.last(), byte - 0x30))
        } else if byte == 0x3b || byte == 0x3a {
            before.push(CsiParam { number: 0, colon: byte == 0x3a })
        } else {
            before
        }
    }
}

/// The parameters of a control sequence; an empty field is zero, and no bytes
/// at all are no parameters.
pub open spec fn csi_params(bytes: Seq<u8>) -> Seq<CsiParam> {
    if bytes.len() == 0 {
        Seq::empty()
    } else {
        open_params(bytes)
    }
}

/// The parameters of a control sequence.
pub struct CsiParams {
    pub numbers: CsiNumbers,
    pub colons: CsiColons,
}

impl View for CsiParams {
    type V = Seq<CsiParam>;

    open spec fn view(&self) -> Seq<CsiParam> {
        Seq::new(
            numbers_in(self.numbers).len(),
            |i: int|
                CsiParam {
                    number: numbers_in(self.numbers)[i],
                    colon: colons_in(self.colons)[i],
                },
        )
    }
}

impl CsiParams {
    /// The two lists go together.
    pub open spec fn wf(&self) -> bool {
        numbers_in(self.numbers).len() == colons_in(self.colons).len()
    }

    /// How many parameters there are.
    pub fn len(&self) -> (n: usize)
        ensures
            n == self@.len(),
    {
        number_count(&self.numbers)
    }

    /// The number of a parameter.
    pub fn number(&self, i: usize) -> (number: u16)
        requires
            i < self@.len(),
        ensures
            number == self@[i as int].number,
    {
        number_at(&self.numbers, i)
    }

    /// Whether a colon stands before a parameter.
    pub fn colon(&self, i: usize) -> (colon: bool)
        requires
            self.wf(),
            i < self@.len(),
        ensures
            colon == self@[i as int].colon,
    {
        colon_at(&self.colons, i)
    }

    /// Adds a parameter.
    fn push(&mut self, number: u16, colon: bool)
        requires
            old(self).wf(),
        ensures
            final(self).wf(),
            final(self)@ == old(self)@.push(CsiParam { number, colon }),
    {
        push_number(&mut self.numbers, number);
        push_colon(&mut self.colons, colon);
        assert(self@ =~= old(self)@.push(CsiParam { number, colon }));
    }
}

/// Reads the parameters of a control sequence.
pub fn parse_csi_params(param_bytes: &[u8]) -> (params: CsiParams)
    ensures
        params.wf(),
        params@ == csi_params(param_bytes@),
{
    let total: usize = param_bytes.len();
    let mut params = CsiParams { numbers: no_numbers(), colons: no_colons() };
    assert(params@ =~= Seq::<CsiParam>::empty());
    if total == 0 {
        return params;
    }
    let mut current: u16 = 0;
    let mut colon: bool = false;
    let mut i: usize = 0;
    assert(param_bytes@.take(0) =~= Seq::<u8>::empty());
    assert(open_params(Seq::<u8>::empty()) =~= params@.push(
        CsiParam { number: current, colon },
    ));
    while i < total
        invariant
            i <= total,
            total == param_bytes@.len(),
            params.wf(),
            open_params(param_bytes@.take(i as int)) == params@.push(
                CsiParam { number: current, colon },
            ),
        decreases total - i,
    {
        let byte: u8 = param_bytes[i];
        let ghost before = open_params(param_bytes@.take(i as int));
        assert(param_bytes@.take(i + 1).drop_last() =~= param_bytes@.take(i as int));
        assert(param_bytes@.take(i + 1).last() == byte);
        assert(before.drop_last() =~= params@);
        if 0x30 <= byte && byte <= 0x39 {
            let wide: u32 = current as u32 * 10 + (byte - 0x30) as u32;
            current = if wide > 65535 {
                65535
            } else {
                wide as u16
            };
        } else if byte == 0x3b || byte == 0x3a {
            params.push(current, colon);
            current = 0;
            colon = byte == 0x3a;
        }
        i = i + 1;
    }
    assert(param_bytes@.take(i as int) =~= param_bytes@);
    params.push(current, colon);
    params
}

/// A parameter, or a default where it is absent or zero.
pub open spec fn param_or(params: Seq<CsiParam>, i: int, default: u16) -> u16 {
    if i < params.len() && params[i].number != 0 {
        params[i].number
    } else {
        default
    }
}

/// A parameter, or a default where it is absent.
pub open spec fn given_or(params: Seq<CsiParam>, i: int, default: u16) -> u16 {
    if i < params.len() {
        params[i].number
    } else {
        default
    }
}

impl CsiParams {
    /// A parameter, or a default where it is absent or zero.
    pub fn number_or(&self, i: usize, default: u16) -> (number: u16)
        ensures
            number == param_or(self@, i as int, default),
    {
        if i < self.len() && self.number(i) != 0 {
            self.number(i)
        } else {
            default
        }
    }

    /// A parameter, or a default where it is absent.
    pub fn given(&self, i: usize, default: u16) -> (number: u16)
        ensures
            number == given_or(self@, i as int, default),
    {
        if i < self.len() {
            self.number(i)
        } else {
            default
        }
    }
}

/// The parts of a control sequence between its introducer and its final byte.
pub struct CsiModel {
    pub marker: Option<u8>,
    pub params: Seq<CsiParam>,
    pub intermediate: Option<u8>,
    pub last: u8,
}

/// Whether a byte marks a private control sequence.
pub open spec fn is_marker(byte: u8) -> bool {
    0x3c <= byte <= 0x3f
}

/// Whether a byte is an intermediate one.
pub open spec fn is_intermediate(byte: u8) -> bool {
    0x20 <= byte <= 0x2f
}

/// The control sequence that the bytes behind the introducer and the final
/// byte make up.
pub open spec fn csi_model(body: Seq<u8>, last: u8) -> CsiModel {
    let from: int = if body.len() > 0 && is_marker(body[0]) {
        1
    } else {
        0
    };
    let to: int = if body.len() > from && is_intermediate(body.last()) {
        body.len() - 1
    } else {
        body.len() as int
    };
    CsiModel {
        marker: if from == 1 {
            Some(body[0])
        } else {
            None
        },
        params: csi_params(body.subrange(from, to)),
        intermediate: if to < body.len() {
            Some(body.last())
        } else {
            None
        },
        last,
    }
}

/// A parsed control sequence.
pub struct CsiCommand {
    pub marker: Option<u8>,
    pub params: CsiParams,
    pub intermediate: Option<u8>,
    pub last: u8,
}

impl View for CsiCommand {
    type V = CsiModel;

    open spec fn view(&self) -> CsiModel {
        CsiModel {
            marker: self.marker,
            params: self.params@,
            intermediate: self.intermediate,
            last: self.last,
        }
    }
}

/// Parses the bytes behind the introducer and the final byte.
pub fn parse_csi(body: &Vec<u8>, last: u8) -> (command: CsiCommand)
    ensures
        command@ == csi_model(body@, last),
        command.params.wf(),
{
    let total: usize = body.len();
    let marked = total > 0 && 0x3c <= body[0] && body[0] <= 0x3f;
    let from: usize = if marked {
        1
    } else {
        0
    };
    let trailed = total > from && 0x20 <= body[total - 1] && body[total - 1] <= 0x2f;
    let to: usize = if trailed {
        total - 1
    } else {
        total
    };
    let mut params: Vec<u8> = Vec::new();
    let mut i: usize = from;
    while i < to
        invariant
            from <= i <= to <= body@.len(),
            params@ == body@.subrange(from as int, i as int),
        decreases to - i,
    {
        params.push(body[i]);
        i = i + 1;
        assert(params@ =~= body@.subrange(from as int, i as int));
    }
    CsiCommand {
        marker: if marked {
            Some(body[0])
        } else {
            None
        },
        params: parse_csi_params(params.as_slice()),
        intermediate: if trailed {
            Some(body[total - 1])
        } else {
            None
        },
        last,
    }
}

} // verus!
