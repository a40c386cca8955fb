//! What the marks of a shell say.

use vstd::prelude::*;

use crate::commands::decimal_text;
use crate::field_laws::fields_stand_between_separators;
use crate::field_laws::first_positions_are_first;
use crate::field_laws::numbers_are_read_in_decimal;
use crate::field_laws::texts_are_split_at_the_first_separator;
use crate::field_laws::texts_without_separators_are_one_field;
use crate::fields::signed_value;
use crate::fields::split_fields;
use crate::fields::split_first;
use crate::fields::trimmed;
use crate::host::path_bytes;
use crate::osc133::exit_attempts;
use crate::osc133::percent_bytes;
use crate::osc133::slot_values;
use crate::osc133::text_of;
use crate::osc133::Osc133Packet;
use crate::osc133::Slot;
use crate::print_laws::numbers_are_written_in_decimal;

verus! {

/// The upper-case hexadecimal digit of a value.
pub open spec fn hex_digit_of(v: int) -> u8 {
    if v < 10 {
        (0x30 + v) as u8
    } else {
        (0x41 + v - 10) as u8
    }
}

/// Bytes, each written as a percent sign and two hexadecimal digits.
pub open spec fn escaped(bytes: Seq<u8>) -> Seq<u8> {
    Seq::new(
        3 * bytes.len(),
        |i: int|
            if i % 3 == 0 {
                0x25u8
            } else if i % 3 == 1 {
                hex_digit_of(bytes[i / 3] as int / 16)
            } else {
                hex_digit_of(bytes[i / 3] as int % 16)
            },
    )
}

/// A digit has its value.
proof fn lemma_digit(v: int)
    requires
        0 <= v < 16,
    ensures
        crate::fields::hex_value(hex_digit_of(v) as char) == Some(v as u8),
{
}

/// Bytes that are all escaped are decoded to themselves.
pub proof fn escapes_are_decoded(bytes: Seq<u8>, n: int, max: int)
    requires
        0 <= n <= bytes.len() <= max,
    ensures
        percent_bytes(escaped(bytes), 3 * n, bytes.take(n), max) == Ok::<
            Seq<u8>,
            crate::osc133::Osc133DecodeError,
        >(bytes),
        path_bytes(escaped(bytes), 3 * n, bytes.take(n)) == Some(bytes),
    decreases bytes.len() - n,
{
    let all = escaped(bytes);
    if n < bytes.len() {
        let i = 3 * n;
        let b = bytes[n] as int;
        assert(i / 3 == n && (i + 1) / 3 == n && (i + 2) / 3 == n);
        assert(i % 3 == 0 && (i + 1) % 3 == 1 && (i + 2) % 3 == 2);
        assert(all[i] == 0x25);
        assert(all[i + 1] == hex_digit_of(b / 16));
        assert(all[i + 2] == hex_digit_of(b % 16));
        lemma_digit(b / 16);
        lemma_digit(b % 16);
        assert(16 * (b / 16) + b % 16 == b);
        assert(bytes.take(n).push(bytes[n]) =~= bytes.take(n + 1));
        escapes_are_decoded(bytes, n + 1, max);
    } else {
        assert(bytes.take(n) =~= bytes);
    }
}

/// Bytes without percent signs are decoded to themselves.
pub proof fn plain_bytes_are_kept(bytes: Seq<u8>, n: int, max: int)
    requires
        0 <= n <= bytes.len() <= max,
        forall|i: int| 0 <= i < bytes.len() ==> #[trigger] bytes[i] != 0x25,
    ensures
        percent_bytes(bytes, n, bytes.take(n), max) == Ok::<
            Seq<u8>,
            crate::osc133::Osc133DecodeError,
        >(bytes),
        path_bytes(bytes, n, bytes.take(n)) == Some(bytes),
    decreases bytes.len() - n,
{
    if n < bytes.len() {
        assert(bytes[n] != 0x25);
        assert(bytes.take(n).push(bytes[n]) =~= bytes.take(n + 1));
        plain_bytes_are_kept(bytes, n + 1, max);
    } else {
        assert(bytes.take(n) =~= bytes);
    }
}

/// Digits have no white space, sign or separator among them.
proof fn lemma_digits(digits: Seq<char>)
    requires
        digits.len() > 0,
        forall|i: int| 0 <= i < digits.len() ==> '0' <= #[trigger] digits[i] <= '9',
    ensures
        trimmed(digits) == digits,
        split_first(digits, '=') is None,
        split_fields(digits, ';') == seq![digits],
        crate::fields::is_number(digits),
        digits[0] != '-' && digits[0] != '+',
{
    assert('0' <= digits[0] <= '9' && '0' <= digits[digits.len() - 1] <= '9');
    first_positions_are_first(digits, '=');
    if crate::fields::first_position(digits, '=') is Some {
        let p = crate::fields::first_position(digits, '=')->0;
        assert('0' <= digits[p] <= '9');
    }
    assert forall|i: int| 0 <= i < digits.len() implies #[trigger] digits[i] != ';' by {
        assert('0' <= digits[i] <= '9');
    }
    texts_without_separators_are_one_field(digits, ';');
}

/// An end mark tells the exit code that stands behind its semicolon.
pub proof fn end_marks_tell_exit_codes(packet: Osc133Packet, code: nat)
    requires
        code <= i32::MAX,
        packet.reads(seq!['D', ';'] + decimal_text(code)),
    ensures
        packet.kind@ == seq!['D'],
        packet.exit_code == Some(code as i32),
        packet.id is None && packet.command is None && packet.cwd is None,
{
    let digits = decimal_text(code);
    numbers_are_written_in_decimal(code);
    numbers_are_read_in_decimal(digits);
    lemma_digits(digits);
    let payload = seq!['D', ';'] + digits;
    let kind = seq!['D'];
    assert(payload =~= kind + seq![';'] + digits);
    texts_without_separators_are_one_field(kind, ';');
    fields_stand_between_separators(kind, ';', digits);
    let parts = split_fields(payload, ';');
    assert(parts =~= seq![kind, digits]);
    let fields = parts.drop_first();
    assert(fields =~= seq![digits]);
    reveal_strlit("D");
    assert("D"@ =~= kind);
    let before = fields.drop_last();
    assert(before =~= Seq::<Seq<char>>::empty());
    assert(fields.last() == digits);
    assert(signed_value(digits) == Some(code as int));
    assert(exit_attempts(before) =~= Seq::<Option<int>>::empty());
    assert(exit_attempts(fields) =~= seq![Some(code as int)]);
    assert(slot_values(before, Slot::Id) =~= Seq::<Seq<char>>::empty());
    assert(slot_values(fields, Slot::Id) =~= Seq::<Seq<char>>::empty());
    assert(slot_values(before, Slot::Command) =~= Seq::<Seq<char>>::empty());
    assert(slot_values(fields, Slot::Command) =~= Seq::<Seq<char>>::empty());
    assert(slot_values(before, Slot::Cwd) =~= Seq::<Seq<char>>::empty());
    assert(slot_values(fields, Slot::Cwd) =~= Seq::<Seq<char>>::empty());
}

/// A mark with one field says what the field does: the name of the command, its text
/// or its directory.
pub proof fn marks_have_named_fields(
    packet: Osc133Packet,
    kind: char,
    key: Seq<char>,
    value: Seq<char>,
)
    requires
        kind != ';',
        key == "id"@ || key == "cmdline_url"@ || key == "cwd"@,
        forall|i: int| 0 <= i < value.len() ==> #[trigger] value[i] != ';',
        packet.reads(seq![kind, ';'] + (key + seq!['='] + value)),
    ensures
        packet.kind@ == seq![kind],
        text_of(packet.id) == if key == "id"@ {
            Some(value)
        } else {
            None
        },
        text_of(packet.command) == if key == "cmdline_url"@ {
            Some(value)
        } else {
            None
        },
        text_of(packet.cwd) == if key == "cwd"@ {
            Some(value)
        } else {
            None
        },
        !packet.command_truncated,
{
    lemma_keys();
    let field = key + seq!['='] + value;
    let payload = seq![kind, ';'] + field;
    let head = seq![kind];
    assert(payload =~= head + seq![';'] + field);
    assert forall|i: int| 0 <= i < key.len() implies #[trigger] key[i] != '=' && key[i]
        != ';' by {}
    assert forall|i: int| 0 <= i < field.len() implies #[trigger] field[i] != ';' by {
        if i < key.len() {
            assert(field[i] == key[i]);
        } else if i > key.len() {
            assert(field[i] == value[i - key.len() - 1]);
        }
    }
    texts_are_split_at_the_first_separator(key, '=', value);
    texts_without_separators_are_one_field(head, ';');
    texts_without_separators_are_one_field(field, ';');
    fields_stand_between_separators(head, ';', field);
    let parts = split_fields(payload, ';');
    assert(parts =~= seq![head, field]);
    let fields = parts.drop_first();
    assert(fields =~= seq![field]);
    assert(fields.last() == field);
    lemma_one_field(fields, field, key, value, Slot::Id);
    lemma_one_field(fields, field, key, value, Slot::Command);
    lemma_one_field(fields, field, key, value, Slot::Cwd);
    lemma_one_field(fields, field, key, value, Slot::Truncated);
}

/// The values of a slot in one field.
proof fn lemma_one_field(
    fields: Seq<Seq<char>>,
    field: Seq<char>,
    key: Seq<char>,
    value: Seq<char>,
    slot: Slot,
)
    requires
        fields == seq![field],
        split_first(field, '=') == Some((key, value)),
    ensures
        slot_values(fields, slot) == if crate::osc133::names(slot, key) {
            seq![value]
        } else {
            Seq::<Seq<char>>::empty()
        },
{
    let before = fields.drop_last();
    assert(before =~= Seq::<Seq<char>>::empty());
    assert(slot_values(before, slot) =~= Seq::<Seq<char>>::empty());
    assert(fields.last() == field);
    assert(Seq::<Seq<char>>::empty().push(value) =~= seq![value]);
}

/// The names of fields are told apart.
proof fn lemma_keys()
    ensures
        ({
            let id = "id"@;
            let text = "cmdline_url"@;
            let cwd = "cwd"@;
            &&& id.len() == 2 && id[0] == 'i' && id[1] == 'd'
            &&& cwd.len() == 3 && cwd[0] == 'c' && cwd[1] == 'w' && cwd[2] == 'd'
            &&& text.len() == 11
            &&& forall|i: int| 0 <= i < 11 ==> #[trigger] text[i] != '=' && text[i] != ';'
            &&& crate::osc133::names(Slot::Id, id) && !crate::osc133::names(Slot::Id, text)
                && !crate::osc133::names(Slot::Id, cwd)
            &&& !crate::osc133::names(Slot::Command, id) && crate::osc133::names(
                Slot::Command,
                text,
            ) && !crate::osc133::names(Slot::Command, cwd)
            &&& !crate::osc133::names(Slot::Cwd, id) && !crate::osc133::names(Slot::Cwd, text)
                && crate::osc133::names(Slot::Cwd, cwd)
            &&& !crate::osc133::names(Slot::Truncated, id) && !crate::osc133::names(
                Slot::Truncated,
                text,
            ) && !crate::osc133::names(Slot::Truncated, cwd)
        }),
{
    reveal_strlit("id");
    reveal_strlit("jsh_id");
    reveal_strlit("execution_id");
    reveal_strlit("command_id");
    reveal_strlit("cmdline_url");
    reveal_strlit("command_url");
    reveal_strlit("command");
    reveal_strlit("cmdline");
    reveal_strlit("cwd");
    reveal_strlit("cwd_url");
    reveal_strlit("cmd_truncated");
    reveal_strlit("command_truncated");
    let text = "cmdline_url"@;
    assert(text[0] == 'c' && text[1] == 'm' && text[2] == 'd' && text[3] == 'l' && text[4] == 'i'
        && text[5] == 'n' && text[6] == 'e' && text[7] == '_' && text[8] == 'u' && text[9] == 'r'
        && text[10] == 'l');
    assert forall|i: int| 0 <= i < 11 implies #[trigger] text[i] != '=' && text[i] != ';' by {
        assert(i == 0 || i == 1 || i == 2 || i == 3 || i == 4 || i == 5 || i == 6 || i == 7 || i
            == 8 || i == 9 || i == 10);
    }
    assert("id"@.len() == 2 && "cwd"@.len() == 3 && text.len() == 11);
    assert("jsh_id"@.len() == 6 && "execution_id"@.len() == 12 && "command_id"@.len() == 10);
    assert("command"@.len() == 7 && "cmdline"@.len() == 7 && "command_url"@.len() == 11);
    assert("cwd_url"@.len() == 7 && "cmd_truncated"@.len() == 13);
    assert("command_truncated"@.len() == 17);
}

} // verus!
