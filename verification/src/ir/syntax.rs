//! The canonical textual syntax of attributes and types: a
//! deterministic reader that is mutually inverse with the printer.

use vstd::prelude::*;
use crate::ir::attribute::{
    attr_text, attrs_text, attrv_wf, attrsv_wf, int_text, is_alnum, is_opaque_char,
    is_str_char, is_sym_char, type_is_integer_like, AttrV,
};
use crate::ir::ty::{type_is_float, type_text, type_wf, Type};
use crate::error::Error;
use crate::ir::attribute::{attr_view, attrs_view, Attribute};
use crate::text::{
    canonical_dec, chars_range_to_string, chars_to_string, dec_seq, dec_seq_val, dec_val,
    hex_seq, hex_seq_val, hex_val, is_dec_digit, is_hex_digit, pow10, pow16, push_str_chars,
    str_to_chars, write_dec_u64, write_hex16_u64,
};

verus! {

/// The character contents of the literals of this syntax.
pub proof fn lit_facts()
    ensures
        "unit"@ == seq!['u', 'n', 'i', 't'],
        "true"@ == seq!['t', 'r', 'u', 'e'],
        "false"@ == seq!['f', 'a', 'l', 's', 'e'],
        ", "@ == seq![',', ' '],
        " : "@ == seq![' ', ':', ' '],
        "0x"@ == seq!['0', 'x'],
        "i"@ == seq!['i'],
        "index"@ == seq!['i', 'n', 'd', 'e', 'x'],
        "bf16"@ == seq!['b', 'f', '1', '6'],
        "f16"@ == seq!['f', '1', '6'],
        "f32"@ == seq!['f', '3', '2'],
        "f64"@ == seq!['f', '6', '4'],
{
    reveal_strlit("unit");
    reveal_strlit("true");
    reveal_strlit("false");
    reveal_strlit(", ");
    reveal_strlit(" : ");
    reveal_strlit("0x");
    reveal_strlit("i");
    reveal_strlit("index");
    reveal_strlit("bf16");
    reveal_strlit("f16");
    reveal_strlit("f32");
    reveal_strlit("f64");
    assert("unit"@ =~= seq!['u', 'n', 'i', 't']);
    assert("true"@ =~= seq!['t', 'r', 'u', 'e']);
    assert("false"@ =~= seq!['f', 'a', 'l', 's', 'e']);
    assert(", "@ =~= seq![',', ' ']);
    assert(" : "@ =~= seq![' ', ':', ' ']);
    assert("0x"@ =~= seq!['0', 'x']);
    assert("i"@ =~= seq!['i']);
    assert("index"@ =~= seq!['i', 'n', 'd', 'e', 'x']);
    assert("bf16"@ =~= seq!['b', 'f', '1', '6']);
    assert("f16"@ =~= seq!['f', '1', '6']);
    assert("f32"@ =~= seq!['f', '3', '2']);
    assert("f64"@ =~= seq!['f', '6', '4']);
}

// ---------------------------------------------------------------------------
// Scanning
// ---------------------------------------------------------------------------

/// The first position at or after `i` whose character fails the
/// predicate, or the end of the text.
pub open spec fn scan(s: Seq<char>, i: int, pred: spec_fn(char) -> bool) -> int
    decreases s.len() - i,
{
    if 0 <= i < s.len() && pred(s[i]) {
        scan(s, i + 1, pred)
    } else {
        i
    }
}

pub proof fn lemma_scan(s: Seq<char>, i: int, pred: spec_fn(char) -> bool)
    requires
        0 <= i <= s.len(),
    ensures
        i <= scan(s, i, pred) <= s.len(),
        forall|k: int| i <= k < scan(s, i, pred) ==> pred(s[k]),
        scan(s, i, pred) == s.len() || !pred(s[scan(s, i, pred)]),
    decreases s.len() - i,
{
    if i < s.len() && pred(s[i]) {
        lemma_scan(s, i + 1, pred);
    }
}

/// A scan stops exactly at `j` when everything before `j` satisfies
/// the predicate and `j` is the end or fails it.
pub proof fn lemma_scan_is(s: Seq<char>, i: int, j: int, pred: spec_fn(char) -> bool)
    requires
        0 <= i <= j <= s.len(),
        forall|k: int| i <= k < j ==> pred(#[trigger] s[k]),
        j == s.len() || !pred(s[j]),
    ensures
        scan(s, i, pred) == j,
    decreases j - i,
{
    if i < j {
        lemma_scan_is(s, i + 1, j, pred);
    }
}

/// Whether the element separator `", "` stands at position `i`.
pub open spec fn sep_at(s: Seq<char>, i: int) -> bool {
    &&& i + 2 <= s.len()
    &&& s[i] == ','
    &&& s[i + 1] == ' '
}

/// Whether the type separator `" : "` stands at position `i`.
pub open spec fn colon_at(s: Seq<char>, i: int) -> bool {
    &&& i + 3 <= s.len()
    &&& s[i] == ' '
    &&& s[i + 1] == ':'
    &&& s[i + 2] == ' '
}

// ---------------------------------------------------------------------------
// Types
// ---------------------------------------------------------------------------

/// Classifies an alphanumeric run as a type.
pub open spec fn type_of_run(run: Seq<char>) -> Option<Type> {
    if run == "index"@ {
        Some(Type::Index)
    } else if run == "bf16"@ {
        Some(Type::BFloat16)
    } else if run == "f16"@ {
        Some(Type::Float16)
    } else if run == "f32"@ {
        Some(Type::Float32)
    } else if run == "f64"@ {
        Some(Type::Float64)
    } else if run.len() >= 2 && run[0] == 'i' && canonical_dec(run.subrange(1, run.len() as int))
        && 1 <= dec_seq_val(run.subrange(1, run.len() as int))
        && dec_seq_val(run.subrange(1, run.len() as int)) <= u64::MAX {
        Some(Type::Integer { width: dec_seq_val(run.subrange(1, run.len() as int)) as u64 })
    } else {
        None
    }
}

/// Reads one type at position `i`: the longest alphanumeric run,
/// classified.
pub open spec fn parse_type_at(s: Seq<char>, i: int) -> Option<(Type, int)> {
    let j = scan(s, i, |c: char| is_alnum(c));
    match type_of_run(s.subrange(i, j)) {
        Some(t) => Some((t, j)),
        None => None,
    }
}

/// Every character of a type's text is alphanumeric.
pub proof fn lemma_type_text_alnum(t: Type)
    requires
        type_wf(t),
    ensures
        type_text(t).len() >= 1,
        forall|k: int| 0 <= k < type_text(t).len() ==> is_alnum(#[trigger] type_text(t)[k]),
{
    lit_facts();
    match t {
        Type::Integer { width } => {
            crate::text::lemma_dec_seq_digits(width as nat);
            let txt = type_text(t);
            assert forall|k: int| 0 <= k < txt.len() implies is_alnum(#[trigger] txt[k]) by {
                if k == 0 {
                    assert(txt[0] == 'i');
                } else {
                    assert(txt[k] == dec_seq(width as nat)[k - 1]);
                    assert(is_dec_digit(dec_seq(width as nat)[k - 1]));
                }
            }
        },
        _ => {},
    }
}

/// The classifier recognizes exactly the printed text of each type.
pub proof fn lemma_type_of_run_print(t: Type)
    requires
        type_wf(t),
    ensures
        type_of_run(type_text(t)) == Some(t),
{
    lit_facts();
    match t {
        Type::Integer { width } => {
            let txt = type_text(t);
            let digits = dec_seq(width as nat);
            crate::text::lemma_dec_seq_canonical(width as nat);
            crate::text::lemma_dec_round_trip(width as nat);
            assert(txt.subrange(1, txt.len() as int) =~= digits);
            assert(txt[0] == 'i');
            assert(txt != "index"@) by {
                if txt.len() == 5 {
                    assert(txt[1] == digits[0]);
                    crate::text::lemma_dec_seq_digits(width as nat);
                    assert(is_dec_digit(txt[1]));
                    assert(!is_dec_digit('n'));
                }
            }
            assert(txt != "bf16"@ && txt != "f16"@ && txt != "f32"@ && txt != "f64"@) by {
                assert(txt[0] == 'i');
            }
        },
        _ => {},
    }
}

/// The classifier only accepts a run that is the printed text of the
/// type it returns.
pub proof fn lemma_type_of_run_sound(run: Seq<char>)
    ensures
        match type_of_run(run) {
            Some(t) => type_wf(t) && type_text(t) == run,
            None => true,
        },
{
    lit_facts();
    match type_of_run(run) {
        Some(t) => {
            match t {
                Type::Integer { width } => {
                    let digits = run.subrange(1, run.len() as int);
                    crate::text::lemma_dec_canonical_unique(digits);
                    assert(dec_seq(width as nat) == digits);
                    assert(type_text(t) =~= run);
                },
                _ => {},
            }
        },
        None => {},
    }
}

// ---------------------------------------------------------------------------
// Attributes
// ---------------------------------------------------------------------------

/// The magnitude bound of a negative integer attribute.
pub open spec fn i64_min_magnitude() -> nat {
    0x8000000000000000
}

/// Reads one attribute at position `i`.
pub open spec fn parse_attr_at(s: Seq<char>, i: int) -> Option<(AttrV, int)>
    decreases s.len() - i, 1int,
{
    if i < 0 || i >= s.len() {
        None
    } else if s[i] == 'u' {
        if i + 4 <= s.len() && s[i + 1] == 'n' && s[i + 2] == 'i' && s[i + 3] == 't' {
            Some((AttrV::Unit, i + 4))
        } else {
            None
        }
    } else if s[i] == 't' {
        if i + 4 <= s.len() && s[i + 1] == 'r' && s[i + 2] == 'u' && s[i + 3] == 'e' {
            Some((AttrV::Boolean { value: true }, i + 4))
        } else {
            None
        }
    } else if s[i] == 'f' {
        if i + 5 <= s.len() && s[i + 1] == 'a' && s[i + 2] == 'l' && s[i + 3] == 's'
            && s[i + 4] == 'e' {
            Some((AttrV::Boolean { value: false }, i + 5))
        } else {
            None
        }
    } else if s[i] == '"' {
        let j = scan(s, i + 1, |c: char| is_str_char(c));
        if j < s.len() && s[j] == '"' {
            Some((AttrV::Str { value: s.subrange(i + 1, j) }, j + 1))
        } else {
            None
        }
    } else if s[i] == '@' {
        let j = scan(s, i + 1, |c: char| is_sym_char(c));
        if j > i + 1 {
            Some((AttrV::FlatSymbolRef { symbol: s.subrange(i + 1, j) }, j))
        } else {
            None
        }
    } else if s[i] == '#' {
        let j = scan(s, i + 1, |c: char| is_opaque_char(c));
        if j > i + 1 {
            Some((AttrV::Opaque { text: s.subrange(i, j) }, j))
        } else {
            None
        }
    } else if s[i] == '[' {
        if i + 1 < s.len() && s[i + 1] == ']' {
            Some((AttrV::Array { elements: Seq::empty() }, i + 2))
        } else {
            match parse_attr_list_at(s, i + 1) {
                Some((elements, j)) => {
                    if j < s.len() && s[j] == ']' {
                        Some((AttrV::Array { elements }, j + 1))
                    } else {
                        None
                    }
                },
                None => None,
            }
        }
    } else if s[i] == '0' && i + 1 < s.len() && s[i + 1] == 'x' {
        // a float attribute: sixteen hexadecimal digits of bit pattern
        let j = scan(s, i + 2, |c: char| is_hex_digit(c));
        if j - (i + 2) == 16 && colon_at(s, j) {
            match parse_type_at(s, j + 3) {
                Some((ty, k)) => {
                    if type_is_float(ty) {
                        Some((AttrV::Float { bits: hex_seq_val(s.subrange(i + 2, j)), ty }, k))
                    } else {
                        None
                    }
                },
                None => None,
            }
        } else {
            None
        }
    } else if s[i] == '-' || is_dec_digit(s[i]) {
        let neg = s[i] == '-';
        let d0 = if neg { i + 1 } else { i };
        let j = scan(s, d0, |c: char| is_dec_digit(c));
        if j > d0 && canonical_dec(s.subrange(d0, j)) {
            let magnitude = dec_seq_val(s.subrange(d0, j));
            let in_range = if neg {
                1 <= magnitude && magnitude <= i64_min_magnitude()
            } else {
                magnitude <= i64::MAX
            };
            if in_range && colon_at(s, j) {
                match parse_type_at(s, j + 3) {
                    Some((ty, k)) => {
                        if type_is_integer_like(ty) && type_wf(ty) {
                            let value = if neg { -(magnitude as int) } else { magnitude as int };
                            Some((AttrV::Integer { value, ty }, k))
                        } else {
                            None
                        }
                    },
                    None => None,
                }
            } else {
                None
            }
        } else {
            None
        }
    } else {
        None
    }
}

/// Reads a non-empty comma-separated attribute list at position `i`.
pub open spec fn parse_attr_list_at(s: Seq<char>, i: int) -> Option<(Seq<AttrV>, int)>
    decreases s.len() - i, 2int,
{
    match parse_attr_at(s, i) {
        Some((first, j)) => {
            if j <= i {
                None
            } else if sep_at(s, j) {
                match parse_attr_list_at(s, j + 2) {
                    Some((rest, k)) => Some((seq![first] + rest, k)),
                    None => None,
                }
            } else {
                Some((seq![first], j))
            }
        },
        None => None,
    }
}

/// Reads a whole text as one attribute: the read must consume every
/// character.
pub open spec fn attr_parse_spec(s: Seq<char>) -> Option<AttrV> {
    match parse_attr_at(s, 0) {
        Some((v, j)) => if j == s.len() { Some(v) } else { None },
        None => None,
    }
}

/// Reads a whole text as one type.
pub open spec fn type_parse_spec(s: Seq<char>) -> Option<Type> {
    match parse_type_at(s, 0) {
        Some((t, j)) => if j == s.len() { Some(t) } else { None },
        None => None,
    }
}

// ---------------------------------------------------------------------------
// The reader is sound: whatever it accepts prints back to the input
// ---------------------------------------------------------------------------

proof fn lemma_pow16_16()
    ensures
        pow16(16) == 0x10000000000000000,
{
    reveal_with_fuel(pow16, 17);
}

/// Reading one attribute consumes at least one character, yields a
/// well-formed value, and consumes exactly that value's printed text.
#[verifier::rlimit(80)]
pub proof fn lemma_parse_sound(s: Seq<char>, i: int)
    requires
        0 <= i <= s.len(),
    ensures
        match parse_attr_at(s, i) {
            Some((v, j)) => {
                &&& i < j <= s.len()
                &&& attrv_wf(v)
                &&& s.subrange(i, j) == attr_text(v)
            },
            None => true,
        },
    decreases s.len() - i, 1int,
{
    lit_facts();
    if i >= s.len() {
        return;
    }
    let c = s[i];
    if c == 'u' || c == 't' {
        match parse_attr_at(s, i) {
            Some((v, j)) => {
                assert(s.subrange(i, j) =~= attr_text(v));
            },
            None => {},
        }
    } else if c == 'f' {
        match parse_attr_at(s, i) {
            Some((v, j)) => {
                assert(s.subrange(i, j) =~= attr_text(v));
            },
            None => {},
        }
    } else if c == '"' {
        let j = scan(s, i + 1, |k: char| is_str_char(k));
        lemma_scan(s, i + 1, |k: char| is_str_char(k));
        if j < s.len() && s[j] == '"' {
            let v = AttrV::Str { value: s.subrange(i + 1, j) };
            assert(attrv_wf(v));
            assert(s.subrange(i, j + 1) =~= attr_text(v));
        }
    } else if c == '@' {
        let j = scan(s, i + 1, |k: char| is_sym_char(k));
        lemma_scan(s, i + 1, |k: char| is_sym_char(k));
        if j > i + 1 {
            let v = AttrV::FlatSymbolRef { symbol: s.subrange(i + 1, j) };
            assert(attrv_wf(v));
            assert(s.subrange(i, j) =~= attr_text(v));
        }
    } else if c == '#' {
        let j = scan(s, i + 1, |k: char| is_opaque_char(k));
        lemma_scan(s, i + 1, |k: char| is_opaque_char(k));
        if j > i + 1 {
            let v = AttrV::Opaque { text: s.subrange(i, j) };
            assert(attrv_wf(v)) by {
                assert(forall|k: int| 1 <= k < j - i
                    ==> #[trigger] s.subrange(i, j)[k] == s[i + k] && is_opaque_char(s[i + k]));
            }
            assert(s.subrange(i, j) == attr_text(v));
        }
    } else if c == '[' {
        if i + 1 < s.len() && s[i + 1] == ']' {
            let v = AttrV::Array { elements: Seq::empty() };
            assert(s.subrange(i, i + 2) =~= attr_text(v));
        } else {
            match parse_attr_list_at(s, i + 1) {
                Some((elements, j)) => {
                    lemma_parse_list_sound(s, i + 1);
                    if j < s.len() && s[j] == ']' {
                        let v = AttrV::Array { elements };
                        assert(s.subrange(i, j + 1) =~= attr_text(v));
                    }
                },
                None => {},
            }
        }
    } else if c == '0' && i + 1 < s.len() && s[i + 1] == 'x' {
        let j = scan(s, i + 2, |k: char| is_hex_digit(k));
        lemma_scan(s, i + 2, |k: char| is_hex_digit(k));
        if j - (i + 2) == 16 && colon_at(s, j) {
            match parse_type_at(s, j + 3) {
                Some((ty, k)) => {
                    lemma_scan(s, j + 3, |d: char| is_alnum(d));
                    lemma_type_of_run_sound(s.subrange(j + 3, k));
                    if type_is_float(ty) {
                        let digits = s.subrange(i + 2, j);
                        crate::text::lemma_hex_canonical_unique(digits);
                        lemma_pow16_16();
                        let bits = hex_seq_val(digits);
                        let v = AttrV::Float { bits, ty };
                        assert(attrv_wf(v));
                        assert(s.subrange(i, k) =~= attr_text(v)) by {
                            assert(hex_seq(bits, 16) == digits);
                            assert(attr_text(v) ==
                                "0x"@ + hex_seq(bits, 16) + " : "@ + type_text(ty));
                            assert(type_text(ty) == s.subrange(j + 3, k));
                        }
                    }
                },
                None => {},
            }
        }
    } else if c == '-' || is_dec_digit(c) {
        let neg = c == '-';
        let d0: int = if neg { i + 1 } else { i };
        let j = scan(s, d0, |k: char| is_dec_digit(k));
        if d0 <= s.len() {
            lemma_scan(s, d0, |k: char| is_dec_digit(k));
        }
        if j > d0 && canonical_dec(s.subrange(d0, j)) {
            let digits = s.subrange(d0, j);
            let magnitude = dec_seq_val(digits);
            let in_range = if neg {
                1 <= magnitude && magnitude <= i64_min_magnitude()
            } else {
                magnitude <= i64::MAX
            };
            if in_range && colon_at(s, j) {
                match parse_type_at(s, j + 3) {
                    Some((ty, k)) => {
                        lemma_scan(s, j + 3, |d: char| is_alnum(d));
                        lemma_type_of_run_sound(s.subrange(j + 3, k));
                        if type_is_integer_like(ty) && type_wf(ty) {
                            crate::text::lemma_dec_canonical_unique(digits);
                            let value: int = if neg { -(magnitude as int) } else {
                                magnitude as int
                            };
                            let v = AttrV::Integer { value, ty };
                            assert(attrv_wf(v));
                            assert(s.subrange(i, k) =~= attr_text(v)) by {
                                assert(dec_seq(magnitude) == digits);
                                assert(type_text(ty) == s.subrange(j + 3, k));
                                if neg {
                                    assert(int_text(value) == seq!['-'] + digits);
                                } else {
                                    assert(int_text(value) == digits);
                                }
                            }
                        }
                    },
                    None => {},
                }
            }
        }
    }
}

/// Reading an attribute list consumes exactly the joined printed
/// texts of the well-formed values it yields.
pub proof fn lemma_parse_list_sound(s: Seq<char>, i: int)
    requires
        0 <= i <= s.len(),
    ensures
        match parse_attr_list_at(s, i) {
            Some((vs, j)) => {
                &&& i < j <= s.len()
                &&& vs.len() >= 1
                &&& attrsv_wf(vs)
                &&& s.subrange(i, j) == attrs_text(vs)
            },
            None => true,
        },
    decreases s.len() - i, 2int,
{
    match parse_attr_at(s, i) {
        Some((first, j)) => {
            lemma_parse_sound(s, i);
            if j <= i {
            } else if sep_at(s, j) {
                match parse_attr_list_at(s, j + 2) {
                    Some((rest, k)) => {
                        lemma_parse_list_sound(s, j + 2);
                        let vs = seq![first] + rest;
                        assert(attrsv_wf(vs)) by {
                            assert(vs.drop_first() =~= rest);
                        }
                        assert(s.subrange(i, k) =~= attrs_text(vs)) by {
                            assert(vs.len() >= 2);
                            assert(vs[0] == first);
                            assert(vs.drop_first() =~= rest);
                            assert(attrs_text(vs) ==
                                attr_text(first) + ", "@ + attrs_text(rest));
                            assert(s.subrange(i, j) == attr_text(first));
                            assert(s.subrange(j + 2, k) == attrs_text(rest));
                            lit_facts();
                        }
                    },
                    None => {},
                }
            } else {
                let vs = seq![first];
                assert(attrsv_wf(vs)) by {
                    assert(vs.len() == 1);
                    assert(vs[0] == first);
                    assert(attrv_wf(first));
                    assert(vs.drop_first() =~= Seq::<AttrV>::empty());
                    assert(attrsv_wf(vs.drop_first()));
                }
                assert(s.subrange(i, j) == attrs_text(vs));
            }
        },
        None => {},
    }
}

// ---------------------------------------------------------------------------
// The reader is complete: every printed value is read back
// ---------------------------------------------------------------------------

/// A printed attribute may be followed only by the end of the text, a
/// separator, or a closing bracket.
pub open spec fn ends_ok(s: Seq<char>, e: int) -> bool {
    e == s.len() || s[e] == ',' || s[e] == ']'
}

/// The first character of a printed attribute is its dispatch
/// character; in particular it is never a separator or bracket.
proof fn lemma_attr_text_first(v: AttrV)
    requires
        attrv_wf(v),
    ensures
        attr_text(v).len() >= 1,
        attr_text(v)[0] != ']' && attr_text(v)[0] != ',' && attr_text(v)[0] != ' ',
{
    lit_facts();
    match v {
        AttrV::Integer { value, ty } => {
            if value < 0 {
                assert(attr_text(v)[0] == '-');
            } else {
                crate::text::lemma_dec_seq_digits(value as nat);
                assert(attr_text(v)[0] == dec_seq(value as nat)[0]);
                assert(is_dec_digit(attr_text(v)[0]));
            }
        },
        AttrV::Float { bits, ty } => {
            assert(attr_text(v)[0] == '0');
        },
        AttrV::Str { value } => {
            assert(attr_text(v)[0] == '"');
        },
        AttrV::FlatSymbolRef { symbol } => {
            assert(attr_text(v)[0] == '@');
        },
        AttrV::Array { elements } => {
            assert(attr_text(v)[0] == '[');
        },
        _ => {},
    }
}

#[verifier::rlimit(100)]
#[verifier::spinoff_prover]
proof fn lemma_pp_unit(v: AttrV, s: Seq<char>, i: int)
    requires
        attrv_wf(v),
        0 <= i,
        i + attr_text(v).len() <= s.len(),
        s.subrange(i, i + attr_text(v).len()) == attr_text(v),
        ends_ok(s, i + attr_text(v).len()),
        v is Unit,
    ensures
        parse_attr_at(s, i) matches Some((r, j)) && r == v && j == i + attr_text(v).len(),
{
    lit_facts();
    let txt = attr_text(v);
    let e = i + txt.len();
    lemma_attr_text_first(v);
    assert(forall|k: int| 0 <= k < txt.len() ==> s[i + k] == #[trigger] txt[k]) by {
        assert(forall|k: int| 0 <= k < txt.len()
            ==> s.subrange(i, e)[k] == #[trigger] s[i + k]);
    }
    match v {
        AttrV::Unit => {
            assert(s[i] == txt[0] && txt[0] == 'u');
            assert(s[i + 1] == txt[1] && txt[1] == 'n');
            assert(s[i + 2] == txt[2] && txt[2] == 'i');
            assert(s[i + 3] == txt[3] && txt[3] == 't');
            assert(txt.len() == 4);
            assert(v == AttrV::Unit);
            assert(e == i + 4);
            assert(parse_attr_at(s, i) == Some((v, e)));
        },
        _ => {},
    }
}


#[verifier::rlimit(100)]
#[verifier::spinoff_prover]
proof fn lemma_pp_boolean(v: AttrV, s: Seq<char>, i: int)
    requires
        attrv_wf(v),
        0 <= i,
        i + attr_text(v).len() <= s.len(),
        s.subrange(i, i + attr_text(v).len()) == attr_text(v),
        ends_ok(s, i + attr_text(v).len()),
        v is Boolean,
    ensures
        parse_attr_at(s, i) matches Some((r, j)) && r == v && j == i + attr_text(v).len(),
{
    lit_facts();
    let txt = attr_text(v);
    let e = i + txt.len();
    lemma_attr_text_first(v);
    assert(forall|k: int| 0 <= k < txt.len() ==> s[i + k] == #[trigger] txt[k]) by {
        assert(forall|k: int| 0 <= k < txt.len()
            ==> s.subrange(i, e)[k] == #[trigger] s[i + k]);
    }
    match v {
        AttrV::Boolean { value } => {
            if value {
                assert(s[i] == txt[0] && txt[0] == 't');
                assert(s[i + 1] == txt[1] && txt[1] == 'r');
                assert(s[i + 2] == txt[2] && txt[2] == 'u');
                assert(s[i + 3] == txt[3] && txt[3] == 'e');
            } else {
                assert(s[i] == txt[0] && txt[0] == 'f');
                assert(s[i + 1] == txt[1] && txt[1] == 'a');
                assert(s[i + 2] == txt[2] && txt[2] == 'l');
                assert(s[i + 3] == txt[3] && txt[3] == 's');
                assert(s[i + 4] == txt[4] && txt[4] == 'e');
            }
        },
        _ => {},
    }
}


#[verifier::rlimit(100)]
#[verifier::spinoff_prover]
proof fn lemma_pp_string(v: AttrV, s: Seq<char>, i: int)
    requires
        attrv_wf(v),
        0 <= i,
        i + attr_text(v).len() <= s.len(),
        s.subrange(i, i + attr_text(v).len()) == attr_text(v),
        ends_ok(s, i + attr_text(v).len()),
        v is Str,
    ensures
        parse_attr_at(s, i) matches Some((r, j)) && r == v && j == i + attr_text(v).len(),
{
    lit_facts();
    let txt = attr_text(v);
    let e = i + txt.len();
    lemma_attr_text_first(v);
    assert(forall|k: int| 0 <= k < txt.len() ==> s[i + k] == #[trigger] txt[k]) by {
        assert(forall|k: int| 0 <= k < txt.len()
            ==> s.subrange(i, e)[k] == #[trigger] s[i + k]);
    }
    match v {
        AttrV::Str { value } => {
            assert(txt =~= seq!['"'] + value + seq!['"']);
            assert(s[i] == txt[0] && txt[0] == '"');
            assert forall|k: int| i + 1 <= k < e - 1 implies is_str_char(#[trigger] s[k]) by {
                assert(txt[k - i] == value[k - i - 1]);
                assert(s[k] == txt[k - i]);
            }
            assert(s[e - 1] == txt[e - 1 - i] && txt[e - 1 - i] == '"');
            assert(!is_str_char('"'));
            lemma_scan_is(s, i + 1, e - 1, |k: char| is_str_char(k));
            assert forall|k: int| 0 <= k < value.len()
                implies s.subrange(i + 1, e - 1)[k] == value[k] by {
                assert(s[i + 1 + k] == txt[k + 1]);
                assert(txt[k + 1] == value[k]);
            }
            assert(s.subrange(i + 1, e - 1) =~= value);
        },
        _ => {},
    }
}


#[verifier::rlimit(100)]
#[verifier::spinoff_prover]
proof fn lemma_pp_symbol(v: AttrV, s: Seq<char>, i: int)
    requires
        attrv_wf(v),
        0 <= i,
        i + attr_text(v).len() <= s.len(),
        s.subrange(i, i + attr_text(v).len()) == attr_text(v),
        ends_ok(s, i + attr_text(v).len()),
        v is FlatSymbolRef,
    ensures
        parse_attr_at(s, i) matches Some((r, j)) && r == v && j == i + attr_text(v).len(),
{
    lit_facts();
    let txt = attr_text(v);
    let e = i + txt.len();
    lemma_attr_text_first(v);
    assert(forall|k: int| 0 <= k < txt.len() ==> s[i + k] == #[trigger] txt[k]) by {
        assert(forall|k: int| 0 <= k < txt.len()
            ==> s.subrange(i, e)[k] == #[trigger] s[i + k]);
    }
    match v {
        AttrV::FlatSymbolRef { symbol } => {
            assert(s[i] == txt[0] && txt[0] == '@');
            assert forall|k: int| i + 1 <= k < e implies is_sym_char(#[trigger] s[k]) by {
                assert(txt[k - i] == symbol[k - i - 1]);
                assert(s[k] == txt[k - i]);
            }
            assert(e == s.len() || !is_sym_char(s[e])) by {
                assert(!is_sym_char(',') && !is_sym_char(']'));
            }
            lemma_scan_is(s, i + 1, e, |k: char| is_sym_char(k));
            assert forall|k: int| 0 <= k < symbol.len()
                implies s.subrange(i + 1, e)[k] == symbol[k] by {
                assert(s[i + 1 + k] == txt[k + 1]);
                assert(txt[k + 1] == symbol[k]);
            }
            assert(s.subrange(i + 1, e) =~= symbol);
        },
        _ => {},
    }
}


#[verifier::rlimit(100)]
#[verifier::spinoff_prover]
proof fn lemma_pp_opaque(v: AttrV, s: Seq<char>, i: int)
    requires
        attrv_wf(v),
        0 <= i,
        i + attr_text(v).len() <= s.len(),
        s.subrange(i, i + attr_text(v).len()) == attr_text(v),
        ends_ok(s, i + attr_text(v).len()),
        v is Opaque,
    ensures
        parse_attr_at(s, i) matches Some((r, j)) && r == v && j == i + attr_text(v).len(),
{
    lit_facts();
    let txt = attr_text(v);
    let e = i + txt.len();
    lemma_attr_text_first(v);
    assert(forall|k: int| 0 <= k < txt.len() ==> s[i + k] == #[trigger] txt[k]) by {
        assert(forall|k: int| 0 <= k < txt.len()
            ==> s.subrange(i, e)[k] == #[trigger] s[i + k]);
    }
    match v {
        AttrV::Opaque { text } => {
            assert(s[i] == txt[0] && txt[0] == '#');
            assert forall|k: int| i + 1 <= k < e implies is_opaque_char(#[trigger] s[k]) by {
                assert(s[k] == txt[k - i]);
            }
            assert(e == s.len() || !is_opaque_char(s[e])) by {
                assert(!is_opaque_char(',') && !is_opaque_char(']'));
            }
            lemma_scan_is(s, i + 1, e, |k: char| is_opaque_char(k));
            assert(s.subrange(i, e) =~= text);
        },
        _ => {},
    }
}


#[verifier::rlimit(100)]
#[verifier::spinoff_prover]
proof fn lemma_pp_array(v: AttrV, s: Seq<char>, i: int)
    requires
        attrv_wf(v),
        0 <= i,
        i + attr_text(v).len() <= s.len(),
        s.subrange(i, i + attr_text(v).len()) == attr_text(v),
        ends_ok(s, i + attr_text(v).len()),
        v is Array,
    ensures
        parse_attr_at(s, i) matches Some((r, j)) && r == v && j == i + attr_text(v).len(),
    decreases v, 0int,
{
    lit_facts();
    let txt = attr_text(v);
    let e = i + txt.len();
    lemma_attr_text_first(v);
    assert(forall|k: int| 0 <= k < txt.len() ==> s[i + k] == #[trigger] txt[k]) by {
        assert(forall|k: int| 0 <= k < txt.len()
            ==> s.subrange(i, e)[k] == #[trigger] s[i + k]);
    }
    match v {
        AttrV::Array { elements } => {
            assert(s[i] == txt[0] && txt[0] == '[');
            assert(s[e - 1] == txt[txt.len() - 1] && txt[txt.len() - 1] == ']');
            if elements.len() == 0 {
                assert(attrs_text(elements) =~= Seq::<char>::empty());
                assert(txt.len() == 2);
                assert(s[i + 1] == txt[1] && txt[1] == ']');
                assert(elements =~= Seq::<AttrV>::empty());
                assert(v == (AttrV::Array { elements: Seq::<AttrV>::empty() }));
            } else {
                assert(txt =~= seq!['['] + attrs_text(elements) + seq![']']);
                assert(attrs_text(elements).len() >= 1) by {
                    lemma_attrs_wf_first(elements);
                }
                assert(s[i + 1] == txt[1] && txt[1] == attrs_text(elements)[0]);
                assert(s[i + 1] != ']') by {
                    lemma_attrs_wf_first(elements);
                    lemma_attr_text_first(elements[0]);
                    assert(attrs_text(elements)[0] == attr_text(elements[0])[0]);
                }
                assert forall|k: int| 0 <= k < attrs_text(elements).len()
                    implies s.subrange(i + 1, e - 1)[k] == attrs_text(elements)[k] by {
                    assert(s[i + 1 + k] == txt[1 + k]);
                    assert(txt[1 + k] == attrs_text(elements)[k]);
                }
                assert(s.subrange(i + 1, e - 1) =~= attrs_text(elements));
                lemma_list_print_parse(elements, s, i + 1);
                assert(parse_attr_list_at(s, i + 1)
                    == Some((elements, i + 1 + attrs_text(elements).len())));
                assert(i + 1 + attrs_text(elements).len() == e - 1);
            }
        },
        _ => {},
    }
}


#[verifier::rlimit(100)]
#[verifier::spinoff_prover]
proof fn lemma_pp_float_bits(v: AttrV, s: Seq<char>, i: int)
    requires
        attrv_wf(v),
        0 <= i,
        i + attr_text(v).len() <= s.len(),
        s.subrange(i, i + attr_text(v).len()) == attr_text(v),
        ends_ok(s, i + attr_text(v).len()),
        v is Float,
    ensures
        parse_attr_at(s, i) matches Some((r, j)) && r == v && j == i + attr_text(v).len(),
{
    lit_facts();
    let txt = attr_text(v);
    let e = i + txt.len();
    lemma_attr_text_first(v);
    assert(forall|k: int| 0 <= k < txt.len() ==> s[i + k] == #[trigger] txt[k]) by {
        assert(forall|k: int| 0 <= k < txt.len()
            ==> s.subrange(i, e)[k] == #[trigger] s[i + k]);
    }
    match v {
        AttrV::Float { bits, ty } => {
            let digits = hex_seq(bits, 16);
            let tt = type_text(ty);
            crate::text::lemma_hex_seq_len(bits as nat, 16);
            lemma_type_text_alnum(ty);
            assert(txt == "0x"@ + digits + " : "@ + tt);
            assert(s[i] == txt[0] && txt[0] == '0');
            assert(s[i + 1] == txt[1] && txt[1] == 'x');
            let jj = i + 2 + 16;
            assert forall|k: int| i + 2 <= k < jj implies is_hex_digit(#[trigger] s[k]) by {
                assert(txt[k - i] == digits[k - i - 2]);
                assert(s[k] == txt[k - i]);
            }
            assert(s[jj] == txt[jj - i] && txt[jj - i] == ' ');
            assert(s[jj + 1] == txt[jj + 1 - i] && txt[jj + 1 - i] == ':');
            assert(s[jj + 2] == txt[jj + 2 - i] && txt[jj + 2 - i] == ' ');
            assert(!is_hex_digit(' '));
            lemma_scan_is(s, i + 2, jj, |k: char| is_hex_digit(k));
            assert(colon_at(s, jj));
            assert forall|k: int| jj + 3 <= k < e implies is_alnum(#[trigger] s[k]) by {
                assert(txt[k - i] == tt[k - i - (jj + 3 - i)]);
                assert(s[k] == txt[k - i]);
            }
            assert(e == jj + 3 + tt.len());
            assert(e == s.len() || !is_alnum(s[e])) by {
                assert(!is_alnum(',') && !is_alnum(']'));
            }
            lemma_scan_is(s, jj + 3, e, |k: char| is_alnum(k));
            assert forall|k: int| 0 <= k < tt.len()
                implies s.subrange(jj + 3, e)[k] == tt[k] by {
                assert(s[jj + 3 + k] == txt[jj + 3 - i + k]);
                assert(txt[jj + 3 - i + k] == tt[k]);
            }
            assert(s.subrange(jj + 3, e) =~= tt);
            lemma_type_of_run_print(ty);
            assert forall|k: int| 0 <= k < 16
                implies s.subrange(i + 2, jj)[k] == digits[k] by {
                assert(s[i + 2 + k] == txt[2 + k]);
                assert(txt[2 + k] == digits[k]);
            }
            assert(s.subrange(i + 2, jj) =~= digits);
            lemma_pow16_16();
            crate::text::lemma_hex_round_trip(bits as nat, 16);
            assert(hex_seq_val(s.subrange(i + 2, jj)) == bits);
        },
        _ => {},
    }
}


#[verifier::rlimit(100)]
#[verifier::spinoff_prover]
proof fn lemma_pp_integer(v: AttrV, s: Seq<char>, i: int)
    requires
        attrv_wf(v),
        0 <= i,
        i + attr_text(v).len() <= s.len(),
        s.subrange(i, i + attr_text(v).len()) == attr_text(v),
        ends_ok(s, i + attr_text(v).len()),
        v is Integer,
    ensures
        parse_attr_at(s, i) matches Some((r, j)) && r == v && j == i + attr_text(v).len(),
{
    lit_facts();
    let txt = attr_text(v);
    let e = i + txt.len();
    lemma_attr_text_first(v);
    assert(forall|k: int| 0 <= k < txt.len() ==> s[i + k] == #[trigger] txt[k]) by {
        assert(forall|k: int| 0 <= k < txt.len()
            ==> s.subrange(i, e)[k] == #[trigger] s[i + k]);
    }
    match v {
        AttrV::Integer { value, ty } => {
            let neg = value < 0;
            let magnitude: nat = if neg { (-value) as nat } else { value as nat };
            let digits = dec_seq(magnitude);
            let tt = type_text(ty);
            crate::text::lemma_dec_seq_canonical(magnitude);
            crate::text::lemma_dec_round_trip(magnitude);
            lemma_type_text_alnum(ty);
            let d0: int = if neg { i + 1 } else { i };
            let jj = d0 + digits.len();
            if neg {
                assert(int_text(value) =~= seq!['-'] + digits);
                assert(txt == (seq!['-'] + digits) + " : "@ + tt);
                assert(s[i] == txt[0] && txt[0] == '-');
                assert forall|k: int| d0 <= k < jj implies is_dec_digit(#[trigger] s[k]) by {
                    assert(txt[k - i] == digits[k - i - 1]);
                    assert(s[k] == txt[k - i]);
                }
            } else {
                assert(int_text(value) == digits);
                assert(txt == digits + " : "@ + tt);
                assert forall|k: int| d0 <= k < jj implies is_dec_digit(#[trigger] s[k]) by {
                    assert(txt[k - i] == digits[k - i]);
                    assert(s[k] == txt[k - i]);
                }
            }
            assert(s[jj] == txt[jj - i] && txt[jj - i] == ' ');
            assert(s[jj + 1] == txt[jj + 1 - i] && txt[jj + 1 - i] == ':');
            assert(s[jj + 2] == txt[jj + 2 - i] && txt[jj + 2 - i] == ' ');
            assert(!is_dec_digit(' '));
            lemma_scan_is(s, d0, jj, |k: char| is_dec_digit(k));
            let off = d0 - i;
            assert forall|k: int| 0 <= k < digits.len()
                implies s.subrange(d0, jj)[k] == digits[k] by {
                assert(s[d0 + k] == txt[off + k]);
                assert(txt[off + k] == digits[k]);
            }
            assert(s.subrange(d0, jj) =~= digits);
            assert(canonical_dec(s.subrange(d0, jj)));
            assert(colon_at(s, jj));
            assert forall|k: int| jj + 3 <= k < e implies is_alnum(#[trigger] s[k]) by {
                assert(txt[k - i] == tt[k - (jj + 3)]);
                assert(s[k] == txt[k - i]);
            }
            assert(e == jj + 3 + tt.len());
            assert(e == s.len() || !is_alnum(s[e])) by {
                assert(!is_alnum(',') && !is_alnum(']'));
            }
            lemma_scan_is(s, jj + 3, e, |k: char| is_alnum(k));
            let off2 = jj + 3 - i;
            assert forall|k: int| 0 <= k < tt.len()
                implies s.subrange(jj + 3, e)[k] == tt[k] by {
                assert(s[jj + 3 + k] == txt[off2 + k]);
                assert(txt[off2 + k] == tt[k]);
            }
            assert(s.subrange(jj + 3, e) =~= tt);
            lemma_type_of_run_print(ty);
            if !neg {
                // the reader must not take the float branch
                crate::text::lemma_dec_seq_digits(magnitude);
                assert(s[i] == txt[0] && txt[0] == digits[0]);
                assert(is_dec_digit(s[i]));
                if s[i] == '0' {
                    assert(digits[0] == '0');
                    assert(digits.len() == 1) by {
                        if digits.len() > 1 {
                            assert(magnitude > 0);
                            assert(digits[0] != '0');
                        }
                    }
                    assert(jj == i + 1);
                    assert(s[i + 1] == ' ');
                    assert(s[i + 1] != 'x');
                }
                assert(s[i] != 'u' && s[i] != 't' && s[i] != 'f' && s[i] != '"'
                    && s[i] != '@' && s[i] != '#' && s[i] != '[' && s[i] != '-');
            }
            assert(dec_seq_val(s.subrange(d0, jj)) == magnitude);
            if neg {
                assert(1 <= magnitude && magnitude <= i64_min_magnitude());
            } else {
                assert(magnitude <= i64::MAX);
            }
        },
        _ => {},
    }
}

/// Printing a well-formed attribute and reading it back at any
/// position yields the attribute again, provided the text is followed
/// by a delimiter.
pub proof fn lemma_print_parse_at(v: AttrV, s: Seq<char>, i: int)
    requires
        attrv_wf(v),
        0 <= i,
        i + attr_text(v).len() <= s.len(),
        s.subrange(i, i + attr_text(v).len()) == attr_text(v),
        ends_ok(s, i + attr_text(v).len()),
    ensures
        parse_attr_at(s, i) matches Some((r, j)) && r == v && j == i + attr_text(v).len(),
    decreases v, 1int,
{
    match v {
        AttrV::Unit => lemma_pp_unit(v, s, i),
        AttrV::Boolean { .. } => lemma_pp_boolean(v, s, i),
        AttrV::Str { .. } => lemma_pp_string(v, s, i),
        AttrV::FlatSymbolRef { .. } => lemma_pp_symbol(v, s, i),
        AttrV::Opaque { .. } => lemma_pp_opaque(v, s, i),
        AttrV::Array { .. } => lemma_pp_array(v, s, i),
        AttrV::Float { .. } => lemma_pp_float_bits(v, s, i),
        AttrV::Integer { .. } => lemma_pp_integer(v, s, i),
    }
}


/// The first element of a well-formed non-empty list is well formed.
proof fn lemma_attrs_wf_first(elements: Seq<AttrV>)
    requires
        attrsv_wf(elements),
        elements.len() >= 1,
    ensures
        attrv_wf(elements[0]),
        attrs_text(elements).len() >= attr_text(elements[0]).len(),
        attrs_text(elements)[0] == attr_text(elements[0])[0],
        attr_text(elements[0]).len() >= 1,
{
    lemma_attr_text_first(elements[0]);
    if elements.len() == 1 {
    } else {
        assert(attrs_text(elements) == attr_text(elements[0]) + ", "@
            + attrs_text(elements.drop_first()));
    }
}

/// Printing a well-formed non-empty list and reading it back yields
/// the list, provided a closing bracket follows.
proof fn lemma_list_print_parse(elements: Seq<AttrV>, s: Seq<char>, i: int)
    requires
        attrsv_wf(elements),
        elements.len() >= 1,
        0 <= i,
        i + attrs_text(elements).len() < s.len(),
        s.subrange(i, i + attrs_text(elements).len()) == attrs_text(elements),
        s[i + attrs_text(elements).len()] == ']',
    ensures
        parse_attr_list_at(s, i) == Some((elements, i + attrs_text(elements).len())),
    decreases elements, 2int,
{
    lit_facts();
    let jt = attrs_text(elements);
    let e = i + jt.len();
    assert(forall|k: int| 0 <= k < jt.len() ==> s[i + k] == #[trigger] jt[k]) by {
        assert(forall|k: int| 0 <= k < jt.len()
            ==> s.subrange(i, e)[k] == #[trigger] s[i + k]);
    }
    let first = elements[0];
    lemma_attrs_wf_first(elements);
    let t0 = attr_text(first);
    if elements.len() == 1 {
        assert(jt == t0);
        assert(s.subrange(i, i + t0.len()) == t0);
        lemma_print_parse_at(first, s, i);
        let j = i + t0.len();
        assert(s[j] == ']');
        assert(!sep_at(s, j));
        assert(parse_attr_list_at(s, i) == Some((seq![first], j)));
        assert(seq![first] =~= elements);
    } else {
        let rest = elements.drop_first();
        assert(jt == t0 + ", "@ + attrs_text(rest));
        let j = i + t0.len();
        assert forall|k: int| 0 <= k < t0.len()
            implies s.subrange(i, j)[k] == t0[k] by {
            assert(s[i + k] == jt[k]);
            assert(jt[k] == t0[k]);
        }
        assert(s.subrange(i, j) =~= t0);
        assert(s[j] == jt[j - i] && jt[j - i] == ',');
        assert(s[j + 1] == jt[j + 1 - i] && jt[j + 1 - i] == ' ');
        lemma_print_parse_at(first, s, i);
        assert(sep_at(s, j));
        let off = t0.len() + 2;
        assert forall|k: int| 0 <= k < attrs_text(rest).len()
            implies s.subrange(j + 2, e)[k] == attrs_text(rest)[k] by {
            assert(s[j + 2 + k] == jt[off + k]);
            assert(jt[off + k] == attrs_text(rest)[k]);
        }
        assert(s.subrange(j + 2, e) =~= attrs_text(rest));
        assert(attrsv_wf(rest));
        assert(rest.len() >= 1);
        lemma_list_print_parse(rest, s, j + 2);
        assert(parse_attr_list_at(s, j + 2) == Some((rest, e)));
        assert(seq![first] + rest =~= elements);
    }
}

/// Printing a well-formed attribute and reading the whole text back
/// yields the attribute: `parse(to_text(x)) == x`.
pub proof fn lemma_attr_round_trip(v: AttrV)
    requires
        attrv_wf(v),
    ensures
        attr_parse_spec(attr_text(v)) == Some(v),
{
    let s = attr_text(v);
    assert(s.subrange(0, s.len() as int) =~= s);
    lemma_print_parse_at(v, s, 0);
}

/// Whatever the whole-text reader accepts is well formed and prints
/// back to the very input: `to_text(parse(s)) == s`.
pub proof fn lemma_parse_print(s: Seq<char>)
    ensures
        match attr_parse_spec(s) {
            Some(v) => attrv_wf(v) && attr_text(v) == s,
            None => true,
        },
{
    lemma_parse_sound(s, 0);
    match attr_parse_spec(s) {
        Some(v) => {
            assert(s.subrange(0, s.len() as int) =~= s);
        },
        None => {},
    }
}

} // verus!


verus! {

// ---------------------------------------------------------------------------
// Executable printing
// ---------------------------------------------------------------------------

/// Appends the canonical text of a type to a buffer.
pub fn write_type(out: &mut Vec<char>, t: &Type)
    ensures
        final(out)@ == old(out)@ + type_text(*t),
{
    match t {
        Type::Index => push_str_chars(out, "index"),
        Type::Integer { width } => {
            push_str_chars(out, "i");
            write_dec_u64(out, *width);
            assert(final(out)@ =~= old(out)@ + type_text(*t));
        },
        Type::BFloat16 => push_str_chars(out, "bf16"),
        Type::Float16 => push_str_chars(out, "f16"),
        Type::Float32 => push_str_chars(out, "f32"),
        Type::Float64 => push_str_chars(out, "f64"),
    }
}

/// Splitting a joined list text after one more element.
proof fn lemma_attrs_text_take(vs: Seq<AttrV>, k: int)
    requires
        1 <= k < vs.len(),
    ensures
        attrs_text(vs.take(k + 1)) == attrs_text(vs.take(k)) + ", "@ + attr_text(vs[k]),
    decreases vs.len(),
{
    if k == 1 {
        let two = vs.take(2);
        assert(two.len() == 2);
        assert(two.drop_first() =~= seq![vs[1]]);
        assert(attrs_text(seq![vs[1]]) == attr_text(vs[1])) by {
            assert(seq![vs[1]].len() == 1);
            assert(seq![vs[1]][0] == vs[1]);
        }
        assert(vs.take(1) =~= seq![vs[0]]);
        assert(attrs_text(vs.take(1)) == attr_text(vs[0]));
        assert(two[0] == vs[0]);
        assert(attrs_text(two) == attr_text(vs[0]) + ", "@ + attr_text(vs[1]));
    } else {
        let d = vs.drop_first();
        lemma_attrs_text_take(d, k - 1);
        assert(vs.take(k + 1).drop_first() =~= d.take(k));
        assert(vs.take(k).drop_first() =~= d.take(k - 1));
        assert(vs.take(k + 1).len() == k + 1);
        assert(vs.take(k + 1)[0] == vs[0]);
        assert(vs.take(k)[0] == vs[0]);
        assert(attrs_text(vs.take(k + 1))
            == attr_text(vs[0]) + ", "@ + attrs_text(d.take(k)));
        assert(attrs_text(vs.take(k))
            == attr_text(vs[0]) + ", "@ + attrs_text(d.take(k - 1)));
        assert(d[k - 1] == vs[k]);
        assert(attr_text(vs[0]) + ", "@
            + (attrs_text(d.take(k - 1)) + ", "@ + attr_text(vs[k]))
            =~= (attr_text(vs[0]) + ", "@ + attrs_text(d.take(k - 1)))
                + ", "@ + attr_text(vs[k]));
    }
}

/// Appends the canonical text of an attribute to a buffer.
pub fn write_attr(out: &mut Vec<char>, a: &Attribute)
    ensures
        final(out)@ == old(out)@ + attr_text(a@),
    decreases a,
{
    proof {
        lit_facts();
    }
    match a {
        Attribute::Unit => push_str_chars(out, "unit"),
        Attribute::Boolean { value } => {
            if *value {
                push_str_chars(out, "true");
            } else {
                push_str_chars(out, "false");
            }
        },
        Attribute::Integer { value, ty } => {
            if *value < 0 {
                out.push('-');
                let magnitude: u64 = (-((*value) as i128)) as u64;
                assert(magnitude as nat == (-(*value as int)) as nat);
                write_dec_u64(out, magnitude);
            } else {
                write_dec_u64(out, *value as u64);
            }
            push_str_chars(out, " : ");
            write_type(out, ty);
            assert(final(out)@ =~= old(out)@ + attr_text(a@));
        },
        Attribute::Float { bits, ty } => {
            out.push('0');
            out.push('x');
            write_hex16_u64(out, *bits);
            push_str_chars(out, " : ");
            write_type(out, ty);
            assert(final(out)@ =~= old(out)@ + attr_text(a@));
        },
        Attribute::Str { value } => {
            out.push('"');
            push_str_chars(out, value.as_str());
            out.push('"');
            assert(final(out)@ =~= old(out)@ + attr_text(a@));
        },
        Attribute::FlatSymbolRef { symbol } => {
            out.push('@');
            push_str_chars(out, symbol.as_str());
            assert(final(out)@ =~= old(out)@ + attr_text(a@));
        },
        Attribute::Opaque { text } => {
            push_str_chars(out, text.as_str());
        },
        Attribute::Array { elements } => {
            let ghost vs = attrs_view(elements@);
            proof {
                crate::ir::attribute::lemma_attrs_view_len(elements@);
            }
            out.push('[');
            let mut k: usize = 0;
            while k < elements.len()
                invariant
                    *a == (Attribute::Array { elements: *elements }),
                    vs == attrs_view(elements@),
                    vs.len() == elements@.len(),
                    forall|n: int| 0 <= n < elements@.len()
                        ==> vs[n] == attr_view(#[trigger] elements@[n]),
                    k <= elements@.len(),
                    out@ == old(out)@ + seq!['['] + attrs_text(vs.take(k as int)),
                decreases elements@.len() - k,
            {
                proof {
                    broadcast use vstd::std_specs::vec::axiom_vec_index_decreases;
                    assert(decreases_to!(*a => a->Array_elements));
                    assert(a->Array_elements == *elements);
                    assert(decreases_to!(*elements => elements@[k as int]));
                }
                if k > 0 {
                    push_str_chars(out, ", ");
                }
                write_attr(out, &elements[k]);
                proof {
                    if k == 0 {
                        assert(vs.take(0) =~= Seq::<AttrV>::empty());
                        assert(attrs_text(vs.take(0)).len() == 0);
                        assert(vs.take(1) =~= seq![vs[0]]);
                        assert(attrs_text(vs.take(1)) == attr_text(vs[0])) by {
                            assert(seq![vs[0]].len() == 1);
                            assert(seq![vs[0]][0] == vs[0]);
                        }
                        assert(out@ =~= old(out)@ + seq!['[']
                            + attrs_text(vs.take(k + 1)));
                    } else {
                        lemma_attrs_text_take(vs, k as int);
                        assert(out@ =~= old(out)@ + seq!['[']
                            + attrs_text(vs.take(k + 1)));
                    }
                }
                k = k + 1;
            }
            out.push(']');
            proof {
                assert(vs.take(vs.len() as int) =~= vs);
                assert(attr_text(a@) == seq!['['] + attrs_text(vs) + seq![']']);
                assert(final(out)@ =~= old(out)@ + attr_text(a@));
            }
        },
    }
}

} // verus!

verus! {

// ---------------------------------------------------------------------------
// Executable scanning
// ---------------------------------------------------------------------------

fn is_dec_digit_x(c: char) -> (r: bool)
    ensures
        r == is_dec_digit(c),
{
    let u = c as u32;
    48 <= u && u <= 57
}

fn is_hex_digit_x(c: char) -> (r: bool)
    ensures
        r == is_hex_digit(c),
{
    let u = c as u32;
    (48 <= u && u <= 57) || (97 <= u && u <= 102)
}

fn is_alnum_x(c: char) -> (r: bool)
    ensures
        r == is_alnum(c),
{
    let u = c as u32;
    (97 <= u && u <= 122) || (65 <= u && u <= 90) || (48 <= u && u <= 57)
}

fn is_sym_char_x(c: char) -> (r: bool)
    ensures
        r == is_sym_char(c),
{
    is_alnum_x(c) || c == '_' || c == '.' || c == '$'
}

fn is_opaque_char_x(c: char) -> (r: bool)
    ensures
        r == is_opaque_char(c),
{
    is_sym_char_x(c) || c == '<' || c == '>' || c == '-'
}

fn is_str_char_x(c: char) -> (r: bool)
    ensures
        r == is_str_char(c),
{
    c != '"' && c != '\\' && c != '\n'
}

fn scan_dec(chars: &Vec<char>, from: usize) -> (r: usize)
    requires
        from <= chars@.len(),
    ensures
        r == scan(chars@, from as int, |c: char| is_dec_digit(c)),
        from <= r <= chars@.len(),
{
    let mut i: usize = from;
    while i < chars.len() && is_dec_digit_x(chars[i])
        invariant
            from <= i <= chars@.len(),
            forall|k: int| from <= k < i ==> is_dec_digit(#[trigger] chars@[k]),
        decreases chars@.len() - i,
    {
        i = i + 1;
    }
    proof {
        lemma_scan_is(chars@, from as int, i as int, |c: char| is_dec_digit(c));
    }
    i
}

fn scan_hex(chars: &Vec<char>, from: usize) -> (r: usize)
    requires
        from <= chars@.len(),
    ensures
        r == scan(chars@, from as int, |c: char| is_hex_digit(c)),
        from <= r <= chars@.len(),
{
    let mut i: usize = from;
    while i < chars.len() && is_hex_digit_x(chars[i])
        invariant
            from <= i <= chars@.len(),
            forall|k: int| from <= k < i ==> is_hex_digit(#[trigger] chars@[k]),
        decreases chars@.len() - i,
    {
        i = i + 1;
    }
    proof {
        lemma_scan_is(chars@, from as int, i as int, |c: char| is_hex_digit(c));
    }
    i
}

fn scan_alnum(chars: &Vec<char>, from: usize) -> (r: usize)
    requires
        from <= chars@.len(),
    ensures
        r == scan(chars@, from as int, |c: char| is_alnum(c)),
        from <= r <= chars@.len(),
{
    let mut i: usize = from;
    while i < chars.len() && is_alnum_x(chars[i])
        invariant
            from <= i <= chars@.len(),
            forall|k: int| from <= k < i ==> is_alnum(#[trigger] chars@[k]),
        decreases chars@.len() - i,
    {
        i = i + 1;
    }
    proof {
        lemma_scan_is(chars@, from as int, i as int, |c: char| is_alnum(c));
    }
    i
}

fn scan_sym(chars: &Vec<char>, from: usize) -> (r: usize)
    requires
        from <= chars@.len(),
    ensures
        r == scan(chars@, from as int, |c: char| is_sym_char(c)),
        from <= r <= chars@.len(),
{
    let mut i: usize = from;
    while i < chars.len() && is_sym_char_x(chars[i])
        invariant
            from <= i <= chars@.len(),
            forall|k: int| from <= k < i ==> is_sym_char(#[trigger] chars@[k]),
        decreases chars@.len() - i,
    {
        i = i + 1;
    }
    proof {
        lemma_scan_is(chars@, from as int, i as int, |c: char| is_sym_char(c));
    }
    i
}

fn scan_opaque(chars: &Vec<char>, from: usize) -> (r: usize)
    requires
        from <= chars@.len(),
    ensures
        r == scan(chars@, from as int, |c: char| is_opaque_char(c)),
        from <= r <= chars@.len(),
{
    let mut i: usize = from;
    while i < chars.len() && is_opaque_char_x(chars[i])
        invariant
            from <= i <= chars@.len(),
            forall|k: int| from <= k < i ==> is_opaque_char(#[trigger] chars@[k]),
        decreases chars@.len() - i,
    {
        i = i + 1;
    }
    proof {
        lemma_scan_is(chars@, from as int, i as int, |c: char| is_opaque_char(c));
    }
    i
}

fn scan_str(chars: &Vec<char>, from: usize) -> (r: usize)
    requires
        from <= chars@.len(),
    ensures
        r == scan(chars@, from as int, |c: char| is_str_char(c)),
        from <= r <= chars@.len(),
{
    let mut i: usize = from;
    while i < chars.len() && is_str_char_x(chars[i])
        invariant
            from <= i <= chars@.len(),
            forall|k: int| from <= k < i ==> is_str_char(#[trigger] chars@[k]),
        decreases chars@.len() - i,
    {
        i = i + 1;
    }
    proof {
        lemma_scan_is(chars@, from as int, i as int, |c: char| is_str_char(c));
    }
    i
}

// ---------------------------------------------------------------------------
// Executable digit-run values
// ---------------------------------------------------------------------------

proof fn lemma_pow10_31()
    ensures
        pow10(31) < u128::MAX,
        pow10(30) > u64::MAX,
{
    reveal_with_fuel(pow10, 32);
}

/// A canonical digit run of length at least two reads to at least the
/// power of ten of its length less one.
proof fn lemma_dec_lower_bound(s: Seq<char>)
    requires
        canonical_dec(s),
        s.len() >= 2,
    ensures
        dec_seq_val(s) >= pow10((s.len() - 1) as nat),
    decreases s.len(),
{
    let front = s.drop_last();
    assert(canonical_dec(front)) by {
        assert(forall|i: int| 0 <= i < front.len()
            ==> front[i] == s[i] && is_dec_digit(#[trigger] s[i]));
        assert(front[0] == s[0]);
    }
    if front.len() == 1 {
        assert(front[0] != '0');
        assert(dec_val(front[0]) >= 1) by {
            assert(is_dec_digit(front[0]));
            crate::text::lemma_digit_chars_cover(front[0]);
            if dec_val(front[0]) == 0 {
                assert(front[0] == '0');
            }
        }
        assert(dec_seq_val(front) == dec_seq_val(front.drop_last()) * 10 + dec_val(front.last()));
        assert(front.drop_last().len() == 0);
        assert(dec_seq_val(front) >= 1);
        assert(dec_seq_val(s) >= 10);
        assert(pow10(0) == 1 && pow10(1) == 10);
    } else {
        lemma_dec_lower_bound(front);
        assert(dec_seq_val(s) == dec_seq_val(front) * 10 + dec_val(s.last()));
        assert(pow10((s.len() - 1) as nat) == pow10((front.len() - 1) as nat) * 10);
        assert(dec_seq_val(front) * 10 >= pow10((front.len() - 1) as nat) * 10);
    }
}

fn dec_run_value(chars: &Vec<char>, from: usize, to: usize) -> (v: u128)
    requires
        from <= to <= chars@.len(),
        to - from <= 30,
        forall|k: int| from <= k < to ==> is_dec_digit(#[trigger] chars@[k]),
    ensures
        v as nat == dec_seq_val(chars@.subrange(from as int, to as int)),
{
    proof {
        lemma_pow10_31();
    }
    let mut acc: u128 = 0;
    let mut i: usize = to;
    i = from;
    while i < to
        invariant
            from <= i <= to <= chars@.len(),
            to - from <= 30,
            pow10(31) < u128::MAX,
            forall|k: int| from <= k < to ==> is_dec_digit(#[trigger] chars@[k]),
            acc as nat == dec_seq_val(chars@.subrange(from as int, i as int)),
            (acc as nat) < pow10((i - from) as nat),
        decreases to - i,
    {
        let c = chars[i];
        let d: u128 = ((c as u32) - 48) as u128;
        proof {
            assert(is_dec_digit(c));
            assert(d as nat == dec_val(c));
            assert(pow10((i + 1 - from) as nat) == pow10((i - from) as nat) * 10);
            assert((acc as nat) * 10 + (d as nat) < pow10((i + 1 - from) as nat))
                by (nonlinear_arith)
                requires
                    (acc as nat) < pow10((i - from) as nat),
                    (d as nat) < 10,
                    pow10((i + 1 - from) as nat) == pow10((i - from) as nat) * 10,
            ;
            lemma_pow10_mono((i + 1 - from) as nat, 31);
            assert(chars@.subrange(from as int, i + 1).drop_last()
                =~= chars@.subrange(from as int, i as int));
            assert(chars@.subrange(from as int, i + 1).last() == c);
        }
        acc = acc * 10 + d;
        i = i + 1;
    }
    acc
}

proof fn lemma_pow10_mono(a: nat, b: nat)
    requires
        a <= b,
    ensures
        pow10(a) <= pow10(b),
    decreases b,
{
    if a < b {
        lemma_pow10_mono(a, (b - 1) as nat);
    }
}

fn hex_run_value(chars: &Vec<char>, from: usize) -> (v: u64)
    requires
        from + 16 <= chars@.len(),
        forall|k: int| from <= k < from + 16 ==> is_hex_digit(#[trigger] chars@[k]),
    ensures
        v as nat == hex_seq_val(chars@.subrange(from as int, from + 16)),
{
    proof {
        lemma_pow16_16();
    }
    let n = chars.len();
    let end: usize = from + 16;
    let mut acc: u64 = 0;
    let mut i: usize = from;
    while i < end
        invariant
            from <= i <= end <= chars@.len(),
            end == from + 16,
            pow16(16) == 0x10000000000000000,
            forall|k: int| from <= k < from + 16 ==> is_hex_digit(#[trigger] chars@[k]),
            acc as nat == hex_seq_val(chars@.subrange(from as int, i as int)),
            (acc as nat) < pow16((i - from) as nat),
        decreases end - i,
    {
        let c = chars[i];
        let u = c as u32;
        let d: u64 = if 48 <= u && u <= 57 { (u - 48) as u64 } else { (u - 87) as u64 };
        proof {
            assert(is_hex_digit(c));
            assert(d as nat == hex_val(c));
            assert(pow16((i + 1 - from) as nat) == pow16((i - from) as nat) * 16);
            assert((acc as nat) * 16 + (d as nat) < pow16((i + 1 - from) as nat))
                by (nonlinear_arith)
                requires
                    (acc as nat) < pow16((i - from) as nat),
                    (d as nat) < 16,
                    pow16((i + 1 - from) as nat) == pow16((i - from) as nat) * 16,
            ;
            lemma_pow16_mono((i + 1 - from) as nat, 16);
            assert(chars@.subrange(from as int, i + 1).drop_last()
                =~= chars@.subrange(from as int, i as int));
            assert(chars@.subrange(from as int, i + 1).last() == c);
        }
        acc = acc * 16 + d;
        i = i + 1;
    }
    acc
}

proof fn lemma_pow16_mono(a: nat, b: nat)
    requires
        a <= b,
    ensures
        pow16(a) <= pow16(b),
    decreases b,
{
    if a < b {
        lemma_pow16_mono(a, (b - 1) as nat);
    }
}

} // verus!

verus! {

// ---------------------------------------------------------------------------
// Executable reading
// ---------------------------------------------------------------------------

/// Reads one type from the buffer at position `i`.
fn parse_type_exec(chars: &Vec<char>, i: usize) -> (r: Option<(Type, usize)>)
    requires
        i <= chars@.len(),
    ensures
        match r {
            Some((t, j)) => parse_type_at(chars@, i as int) == Some((t, j as int))
                && i <= j <= chars@.len(),
            None => parse_type_at(chars@, i as int) is None,
        },
{
    proof {
        lit_facts();
    }
    let j = scan_alnum(chars, i);
    let ghost run = chars@.subrange(i as int, j as int);
    let n = j - i;
    if n == 5 && chars[i] == 'i' && chars[i + 1] == 'n' && chars[i + 2] == 'd'
        && chars[i + 3] == 'e' && chars[i + 4] == 'x' {
        proof {
            assert(run =~= "index"@);
        }
        Some((Type::Index, j))
    } else if n == 4 && chars[i] == 'b' && chars[i + 1] == 'f' && chars[i + 2] == '1'
        && chars[i + 3] == '6' {
        proof {
            assert(run =~= "bf16"@);
            assert(run != "index"@);
        }
        Some((Type::BFloat16, j))
    } else if n == 3 && chars[i] == 'f' && chars[i + 1] == '1' && chars[i + 2] == '6' {
        proof {
            assert(run =~= "f16"@);
            assert(run != "index"@ && run != "bf16"@);
        }
        Some((Type::Float16, j))
    } else if n == 3 && chars[i] == 'f' && chars[i + 1] == '3' && chars[i + 2] == '2' {
        proof {
            assert(run =~= "f32"@);
            assert(run != "index"@ && run != "bf16"@ && run != "f16"@) by {
                assert(run[1] == '3');
            }
        }
        Some((Type::Float32, j))
    } else if n == 3 && chars[i] == 'f' && chars[i + 1] == '6' && chars[i + 2] == '4' {
        proof {
            assert(run =~= "f64"@);
            assert(run != "index"@ && run != "bf16"@ && run != "f16"@ && run != "f32"@) by {
                assert(run[1] == '6');
            }
        }
        Some((Type::Float64, j))
    } else if n >= 2 && chars[i] == 'i' {
        let ghost digits = run.subrange(1, run.len() as int);
        proof {
            assert(run.len() == n);
            assert(forall|k: int| 0 <= k < digits.len()
                ==> #[trigger] digits[k] == chars@[i + 1 + k]);
            assert(run != "index"@ && run != "bf16"@ && run != "f16"@ && run != "f32"@
                && run != "f64"@) by {
                assert(run[0] == 'i');
                if run.len() == 5 {
                    assert(chars@[i + 1] == run[1]);
                }
            }
        }
        let jd = scan_dec(chars, i + 1);
        proof {
            lemma_scan(chars@, i + 1, |c: char| is_dec_digit(c));
            lemma_scan(chars@, i as int, |c: char| is_alnum(c));
        }
        if jd != j || (n > 2 && chars[i + 1] == '0') {
            proof {
                // the digit run is not canonical, so no integer type is read
                if jd != j {
                    if jd < j {
                        assert(!is_dec_digit(chars@[jd as int]));
                        assert(digits[jd - i - 1] == chars@[jd as int]);
                        assert(!canonical_dec(digits));
                    } else {
                        // a decimal scan never passes an alphanumeric scan's stop
                        assert(is_dec_digit(chars@[j as int]));
                        assert(j < chars@.len() ==> !is_alnum(chars@[j as int]));
                        assert(jd <= chars@.len());
                        assert(false);
                    }
                } else {
                    assert(digits[0] == chars@[i + 1]);
                    assert(!canonical_dec(digits));
                }
            }
            None
        } else {
            proof {
                assert(forall|k: int| 0 <= k < digits.len()
                    ==> is_dec_digit(#[trigger] digits[k]));
                assert(canonical_dec(digits));
                assert(digits =~= chars@.subrange(i + 1, j as int));
            }
            if n - 1 > 30 {
                proof {
                    lemma_dec_lower_bound(digits);
                    lemma_pow10_31();
                    lemma_pow10_mono(30, (digits.len() - 1) as nat);
                    assert(dec_seq_val(digits) > u64::MAX);
                }
                None
            } else {
                let v = dec_run_value(chars, i + 1, j);
                if 1 <= v && v <= 0xFFFFFFFFFFFFFFFFu128 {
                    Some((Type::Integer { width: v as u64 }, j))
                } else {
                    None
                }
            }
        }
    } else {
        proof {
            assert(type_of_run(run) is None) by {
                assert(run.len() == n);
                if n == 5 && run == "index"@ {
                    assert(chars@[i as int] == run[0] && chars@[i + 1] == run[1]
                        && chars@[i + 2] == run[2] && chars@[i + 3] == run[3]
                        && chars@[i + 4] == run[4]);
                }
                if n == 4 && run == "bf16"@ {
                    assert(chars@[i as int] == run[0] && chars@[i + 1] == run[1]
                        && chars@[i + 2] == run[2] && chars@[i + 3] == run[3]);
                }
                if n == 3 && (run == "f16"@ || run == "f32"@ || run == "f64"@) {
                    assert(chars@[i as int] == run[0] && chars@[i + 1] == run[1]
                        && chars@[i + 2] == run[2]);
                }
                if n >= 2 && run[0] == 'i' {
                    assert(chars@[i as int] == run[0]);
                }
            }
        }
        None
    }
}

} // verus!

verus! {

/// Reads one attribute from the buffer at position `i`.
#[verifier::rlimit(80)]
fn parse_attr_exec(chars: &Vec<char>, i: usize) -> (r: Option<(Attribute, usize)>)
    requires
        i <= chars@.len(),
    ensures
        match r {
            Some((a, j)) => parse_attr_at(chars@, i as int) == Some((a@, j as int))
                && i < j <= chars@.len(),
            None => parse_attr_at(chars@, i as int) is None,
        },
    decreases chars@.len() - i, 1int,
{
    proof {
        lit_facts();
    }
    if i >= chars.len() {
        return None;
    }
    let c = chars[i];
    if c == 'u' {
        if chars.len() - i >= 4 && chars[i + 1] == 'n' && chars[i + 2] == 'i'
            && chars[i + 3] == 't' {
            Some((Attribute::Unit, i + 4))
        } else {
            None
        }
    } else if c == 't' {
        if chars.len() - i >= 4 && chars[i + 1] == 'r' && chars[i + 2] == 'u'
            && chars[i + 3] == 'e' {
            Some((Attribute::Boolean { value: true }, i + 4))
        } else {
            None
        }
    } else if c == 'f' {
        if chars.len() - i >= 5 && chars[i + 1] == 'a' && chars[i + 2] == 'l'
            && chars[i + 3] == 's' && chars[i + 4] == 'e' {
            Some((Attribute::Boolean { value: false }, i + 5))
        } else {
            None
        }
    } else if c == '"' {
        let j = scan_str(chars, i + 1);
        if j < chars.len() && chars[j] == '"' {
            let value = chars_range_to_string(chars, i + 1, j);
            Some((Attribute::Str { value }, j + 1))
        } else {
            None
        }
    } else if c == '@' {
        let j = scan_sym(chars, i + 1);
        if j > i + 1 {
            let symbol = chars_range_to_string(chars, i + 1, j);
            Some((Attribute::FlatSymbolRef { symbol }, j))
        } else {
            None
        }
    } else if c == '#' {
        let j = scan_opaque(chars, i + 1);
        if j > i + 1 {
            let text = chars_range_to_string(chars, i, j);
            Some((Attribute::Opaque { text }, j))
        } else {
            None
        }
    } else if c == '[' {
        if i + 1 < chars.len() && chars[i + 1] == ']' {
            let elements: Vec<Attribute> = Vec::new();
            proof {
                assert(attrs_view(elements@) =~= Seq::<AttrV>::empty());
            }
            Some((Attribute::Array { elements }, i + 2))
        } else {
            match parse_attr_list_exec(chars, i + 1) {
                Some((elements, j)) => {
                    if j < chars.len() && chars[j] == ']' {
                        Some((Attribute::Array { elements }, j + 1))
                    } else {
                        None
                    }
                },
                None => None,
            }
        }
    } else if c == '0' && i + 1 < chars.len() && chars[i + 1] == 'x' {
        let j = scan_hex(chars, i + 2);
        proof {
            lemma_scan(chars@, i + 2, |k: char| is_hex_digit(k));
        }
        if j - (i + 2) == 16 && chars.len() - j >= 3 && chars[j] == ' '
            && chars[j + 1] == ':' && chars[j + 2] == ' ' {
            match parse_type_exec(chars, j + 3) {
                Some((ty, k)) => {
                    if ty.is_float() {
                        let bits = hex_run_value(chars, i + 2);
                        proof {
                            assert(chars@.subrange(i + 2, (i + 2) + 16)
                                =~= chars@.subrange(i + 2, j as int));
                        }
                        Some((Attribute::Float { bits, ty }, k))
                    } else {
                        None
                    }
                },
                None => None,
            }
        } else {
            None
        }
    } else if c == '-' || is_dec_digit_x(c) {
        let neg = c == '-';
        let d0: usize = if neg { i + 1 } else { i };
        let j = scan_dec(chars, d0);
        proof {
            lemma_scan(chars@, d0 as int, |k: char| is_dec_digit(k));
        }
        let ghost digits = chars@.subrange(d0 as int, j as int);
        if j > d0 && (j - d0 == 1 || chars[d0] != '0') {
            proof {
                assert(canonical_dec(digits)) by {
                    assert(forall|k: int| 0 <= k < digits.len()
                        ==> #[trigger] digits[k] == chars@[d0 + k]);
                }
            }
            if j - d0 > 30 {
                proof {
                    lemma_dec_lower_bound(digits);
                    lemma_pow10_31();
                    lemma_pow10_mono(30, (digits.len() - 1) as nat);
                    assert(dec_seq_val(digits) > i64_min_magnitude());
                    assert(dec_seq_val(digits) > i64::MAX);
                }
                None
            } else {
                let magnitude = dec_run_value(chars, d0, j);
                let in_range: bool = if neg {
                    1 <= magnitude && magnitude <= 0x8000000000000000u128
                } else {
                    magnitude <= 0x7FFFFFFFFFFFFFFFu128
                };
                if in_range && chars.len() - j >= 3 && chars[j] == ' '
                    && chars[j + 1] == ':' && chars[j + 2] == ' ' {
                    match parse_type_exec(chars, j + 3) {
                        Some((ty, k)) => {
                            let integer_like = match ty {
                                Type::Index => true,
                                Type::Integer { .. } => true,
                                _ => false,
                            };
                            proof {
                                lemma_scan(chars@, j + 3, |d: char| is_alnum(d));
                                lemma_type_of_run_sound(
                                    chars@.subrange(j + 3,
                                        scan(chars@, j + 3, |d: char| is_alnum(d))));
                            }
                            if integer_like {
                                let value: i64 = if neg {
                                    (-(magnitude as i128)) as i64
                                } else {
                                    magnitude as i64
                                };
                                Some((Attribute::Integer { value, ty }, k))
                            } else {
                                None
                            }
                        },
                        None => None,
                    }
                } else {
                    None
                }
            }
        } else {
            proof {
                if j > d0 {
                    assert(digits[0] == chars@[d0 as int]);
                    assert(!canonical_dec(digits));
                }
            }
            None
        }
    } else {
        None
    }
}

/// Reads a non-empty comma-separated attribute list from the buffer.
fn parse_attr_list_exec(chars: &Vec<char>, i: usize) -> (r: Option<(Vec<Attribute>, usize)>)
    requires
        i <= chars@.len(),
    ensures
        match r {
            Some((vs, j)) => parse_attr_list_at(chars@, i as int)
                == Some((attrs_view(vs@), j as int)) && i < j <= chars@.len(),
            None => parse_attr_list_at(chars@, i as int) is None,
        },
    decreases chars@.len() - i, 2int,
{
    match parse_attr_exec(chars, i) {
        Some((first, j)) => {
            if chars.len() - j >= 2 && chars[j] == ',' && chars[j + 1] == ' ' {
                match parse_attr_list_exec(chars, j + 2) {
                    Some((rest, k)) => {
                        let mut out = rest;
                        let ghost old_seq = out@;
                        proof {
                            crate::ir::attribute::lemma_attrs_view_len(old_seq);
                        }
                        out.insert(0, first);
                        proof {
                            crate::ir::attribute::lemma_attrs_view_len(out@);
                            assert(out@.len() == old_seq.len() + 1);
                            assert(out@[0] == first);
                            assert forall|n: int| 0 <= n < out@.len()
                                implies attrs_view(out@)[n]
                                    == (seq![attr_view(first)] + attrs_view(old_seq))[n] by {
                                if n > 0 {
                                    assert(out@[n] == old_seq[n - 1]);
                                    assert(attrs_view(old_seq)[n - 1]
                                        == attr_view(old_seq[n - 1]));
                                }
                            }
                            assert(attrs_view(out@)
                                =~= seq![attr_view(first)] + attrs_view(old_seq));
                        }
                        Some((out, k))
                    },
                    None => None,
                }
            } else {
                let mut out: Vec<Attribute> = Vec::new();
                out.push(first);
                proof {
                    assert(attrs_view(out@) =~= seq![attr_view(first)]) by {
                        crate::ir::attribute::lemma_attrs_view_len(out@);
                    }
                }
                Some((out, j))
            }
        },
        None => None,
    }
}

// ---------------------------------------------------------------------------
// The public textual interface
// ---------------------------------------------------------------------------

impl Attribute {
    /// Renders the attribute in its canonical textual form.
    pub fn to_text(&self) -> (r: String)
        ensures
            r@ == attr_text(self@),
    {
        let mut buf: Vec<char> = Vec::new();
        write_attr(&mut buf, self);
        assert(buf@ =~= attr_text(self@));
        chars_to_string(&buf)
    }

    /// Reads an attribute from its canonical textual form; any other
    /// text is rejected.
    ///
    /// The context parameter mirrors the rule that every factory takes
    /// its owning context; reading interns nothing here.
    pub fn parse(_context: &crate::context::Context, source: &str) -> (r: Result<Attribute, Error>)
        ensures
            match r {
                Ok(a) => attr_parse_spec(source@) == Some(a@),
                Err(e) => {
                    &&& attr_parse_spec(source@) is None
                    &&& e matches Error::AttributeParse(t) && t@ == source@
                },
            },
    {
        let chars = str_to_chars(source);
        match parse_attr_exec(&chars, 0) {
            Some((a, j)) => {
                if j == chars.len() {
                    Ok(a)
                } else {
                    Err(Error::AttributeParse(source.to_owned()))
                }
            },
            None => Err(Error::AttributeParse(source.to_owned())),
        }
    }
}

impl Type {
    /// Renders the type in its canonical textual form.
    pub fn to_text(&self) -> (r: String)
        ensures
            r@ == type_text(*self),
    {
        let mut buf: Vec<char> = Vec::new();
        write_type(&mut buf, self);
        assert(buf@ =~= type_text(*self));
        chars_to_string(&buf)
    }

    /// Reads a type from its canonical textual form; any other text is
    /// rejected.
    pub fn parse(_context: &crate::context::Context, source: &str) -> (r: Result<Type, Error>)
        ensures
            match r {
                Ok(t) => type_parse_spec(source@) == Some(t),
                Err(e) => {
                    &&& type_parse_spec(source@) is None
                    &&& e matches Error::AttributeParse(t) && t@ == source@
                },
            },
    {
        let chars = str_to_chars(source);
        match parse_type_exec(&chars, 0) {
            Some((t, j)) => {
                if j == chars.len() {
                    Ok(t)
                } else {
                    Err(Error::AttributeParse(source.to_owned()))
                }
            },
            None => Err(Error::AttributeParse(source.to_owned())),
        }
    }
}

/// Round trip, printed side: reading back the canonical text of any
/// well-formed attribute yields a structurally equal attribute.
pub proof fn lemma_attr_text_round_trip(v: AttrV)
    requires
        attrv_wf(v),
    ensures
        attr_parse_spec(attr_text(v)) == Some(v),
{
    lemma_attr_round_trip(v);
}

/// Round trip, read side: printing whatever was read yields the very
/// text that was read.
pub proof fn lemma_attr_parse_round_trip(s: Seq<char>)
    requires
        attr_parse_spec(s) is Some,
    ensures
        attrv_wf(attr_parse_spec(s)->Some_0),
        attr_text(attr_parse_spec(s)->Some_0) == s,
{
    lemma_parse_print(s);
}

/// Round trip for types, printed side.
pub proof fn lemma_type_text_round_trip(t: Type)
    requires
        type_wf(t),
    ensures
        type_parse_spec(type_text(t)) == Some(t),
{
    lemma_type_text_alnum(t);
    lemma_type_of_run_print(t);
    let s = type_text(t);
    lemma_scan_is(s, 0, s.len() as int, |c: char| is_alnum(c));
    assert(s.subrange(0, s.len() as int) =~= s);
}

/// Round trip for types, read side.
pub proof fn lemma_type_parse_round_trip(s: Seq<char>)
    requires
        type_parse_spec(s) is Some,
    ensures
        type_wf(type_parse_spec(s)->Some_0),
        type_text(type_parse_spec(s)->Some_0) == s,
{
    let j = scan(s, 0, |c: char| is_alnum(c));
    lemma_scan(s, 0, |c: char| is_alnum(c));
    lemma_type_of_run_sound(s.subrange(0, j));
    assert(s.subrange(0, s.len() as int) =~= s);
}

} // verus!

verus! {

/// The values of an attribute array whose elements are all integers.
pub open spec fn integer_elements_of(elements: Seq<AttrV>) -> Seq<int> {
    elements.map_values(|e: AttrV| e->Integer_value)
}

impl Attribute {
    /// The integer values of an array attribute. An element of any
    /// other kind is reported, with its text, as a mismatched element.
    pub fn integer_elements(&self) -> (r: Result<Vec<i64>, Error>)
        requires
            self is Array,
        ensures
            match r {
                Ok(vs) => {
                    &&& forall|k: int| 0 <= k < self->Array_elements@.len()
                        ==> attr_view(#[trigger] self->Array_elements@[k]) is Integer
                    &&& vs@.map_values(|x: i64| x as int)
                        == integer_elements_of(attrs_view(self->Array_elements@))
                },
                Err(e) => {
                    &&& exists|k: int| 0 <= k < self->Array_elements@.len()
                        && !(attr_view(#[trigger] self->Array_elements@[k]) is Integer)
                    &&& e matches Error::ElementExpected { kind, value: _ }
                        && kind@ == "integer"@
                },
            },
    {
        match self {
            Attribute::Array { elements } => {
                let mut out: Vec<i64> = Vec::new();
                let mut i: usize = 0;
                proof {
                    crate::ir::attribute::lemma_attrs_view_len(elements@);
                }
                while i < elements.len()
                    invariant
                        *self == (Attribute::Array { elements: *elements }),
                        i <= elements@.len(),
                        out@.len() == i,
                        forall|k: int| 0 <= k < i
                            ==> attr_view(#[trigger] elements@[k]) is Integer,
                        forall|k: int| 0 <= k < i
                            ==> #[trigger] out@[k] == attr_view(elements@[k])->Integer_value,
                    decreases elements@.len() - i,
                {
                    match &elements[i] {
                        Attribute::Integer { value, ty: _ } => {
                            out.push(*value);
                        },
                        other => {
                            return Err(Error::ElementExpected {
                                kind: "integer",
                                value: other.to_text(),
                            });
                        },
                    }
                    i = i + 1;
                }
                proof {
                    crate::ir::attribute::lemma_attrs_view_len(elements@);
                    assert(out@.map_values(|x: i64| x as int)
                        =~= integer_elements_of(attrs_view(elements@)));
                }
                Ok(out)
            },
            _ => {
                proof {
                    assert(false);
                }
                Ok(Vec::new())
            },
        }
    }
}

} // verus!
