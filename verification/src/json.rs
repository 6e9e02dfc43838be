//! The JSON value model the client works with.
//!
//! Numbers are kept exactly: non-negative integers and negative integers are
//! held as machine integers, and any other numeric literal (fractions,
//! exponents, magnitudes beyond 64 bits) is carried as its source text, so a
//! payload passes through the client unchanged without floating-point
//! arithmetic.

use vstd::prelude::*;
use vstd::string::StrSliceExecFns;
use vstd::string::StringExecFns;

verus! {

broadcast use vstd::std_specs::vec::group_vec_axioms, vstd::seq::group_seq_axioms;

/// Mathematical model of a JSON value.
pub enum JsonV {
    /// `null`.
    Null,
    /// `true` or `false`.
    Bool(bool),
    /// A non-negative integer literal.
    UInt(u64),
    /// A negative integer literal, held as its magnitude.
    NegInt(u64),
    /// Any other numeric literal, held as its source text.
    NumLit(Seq<char>),
    /// A string.
    Str(Seq<char>),
    /// An array of values.
    Arr(Seq<JsonV>),
    /// An object: fields in source order.
    Obj(Seq<(Seq<char>, JsonV)>),
}

/// A JSON value.
#[derive(Debug, PartialEq, Eq)]
pub enum JsonValue {
    /// `null`.
    Null,
    /// `true` or `false`.
    Bool(bool),
    /// A non-negative integer literal.
    UInt(u64),
    /// A negative integer literal, held as its magnitude (`NegInt(5)` is `-5`).
    NegInt(u64),
    /// Any other numeric literal, held as its source text.
    NumLit(String),
    /// A string.
    Str(String),
    /// An array of values.
    Arr(Vec<JsonValue>),
    /// An object: fields in source order.
    Obj(Vec<(String, JsonValue)>),
}

impl JsonValue {
    /// The mathematical value this node stands for.
    pub open spec fn view(self) -> JsonV
        decreases self via Self::view_decreases
    {
        match self {
            JsonValue::Null => JsonV::Null,
            JsonValue::Bool(b) => JsonV::Bool(b),
            JsonValue::UInt(n) => JsonV::UInt(n),
            JsonValue::NegInt(n) => JsonV::NegInt(n),
            JsonValue::NumLit(t) => JsonV::NumLit(t@),
            JsonValue::Str(s) => JsonV::Str(s@),
            JsonValue::Arr(vs) => JsonV::Arr(view_elems(vs@)),
            JsonValue::Obj(fs) => JsonV::Obj(view_fields(fs@)),
        }
    }

    #[via_fn]
    proof fn view_decreases(self) {
        match self {
            JsonValue::Arr(vs) => {
                assert(decreases_to!(self => vs));
                assert(decreases_to!(vs => vs@));
            },
            JsonValue::Obj(fs) => {
                assert(decreases_to!(self => fs));
                assert(decreases_to!(fs => fs@));
            },
            _ => (),
        }
    }
}

/// The mathematical values of a sequence of JSON nodes, in order.
pub open spec fn view_elems(vs: Seq<JsonValue>) -> Seq<JsonV>
    decreases vs via view_elems_decreases
{
    if vs.len() == 0 {
        Seq::empty()
    } else {
        seq![vs[0]@] + view_elems(vs.drop_first())
    }
}

#[via_fn]
proof fn view_elems_decreases(vs: Seq<JsonValue>) {
    if vs.len() > 0 {
        assert(decreases_to!(vs => vs[0]));
        vstd::seq::axiom_seq_subrange_decreases(vs, 1, vs.len() as int);
        assert(vs.drop_first() == vs.subrange(1, vs.len() as int));
    }
}

/// The mathematical values of a sequence of JSON object fields, in order.
pub open spec fn view_fields(fs: Seq<(String, JsonValue)>) -> Seq<(Seq<char>, JsonV)>
    decreases fs via view_fields_decreases
{
    if fs.len() == 0 {
        Seq::empty()
    } else {
        seq![(fs[0].0@, fs[0].1@)] + view_fields(fs.drop_first())
    }
}

#[via_fn]
proof fn view_fields_decreases(fs: Seq<(String, JsonValue)>) {
    if fs.len() > 0 {
        assert(decreases_to!(fs => fs[0]));
        assert(decreases_to!(fs[0] => fs[0].1));
        vstd::seq::axiom_seq_subrange_decreases(fs, 1, fs.len() as int);
        assert(fs.drop_first() == fs.subrange(1, fs.len() as int));
    }
}

/// Facts about `view_elems`: it keeps length and maps each element to its view.
pub proof fn lemma_view_elems(vs: Seq<JsonValue>)
    ensures
        view_elems(vs).len() == vs.len(),
        forall|i: int| 0 <= i < vs.len() ==> view_elems(vs)[i] == vs[i]@,
    decreases vs.len(),
{
    if vs.len() > 0 {
        lemma_view_elems(vs.drop_first());
    }
}

/// Facts about `view_fields`: it keeps length and maps each field to its view.
pub proof fn lemma_view_fields(fs: Seq<(String, JsonValue)>)
    ensures
        view_fields(fs).len() == fs.len(),
        forall|i: int|
            0 <= i < fs.len() ==> view_fields(fs)[i] == (fs[i].0@, fs[i].1@),
    decreases fs.len(),
{
    if fs.len() > 0 {
        lemma_view_fields(fs.drop_first());
    }
}

/// The decimal digit character for `d` (`0 <= d <= 9`).
pub open spec fn spec_digit(d: int) -> char {
    ((48 + d) as u8) as char
}

/// The decimal text of `n`, without sign or padding.
pub open spec fn spec_dec(n: nat) -> Seq<char>
    decreases n,
{
    if n < 10 {
        seq![spec_digit(n as int)]
    } else {
        spec_dec(n / 10).push(spec_digit((n % 10) as int))
    }
}

/// The lowercase hexadecimal digit character for `d` (`0 <= d <= 15`).
pub open spec fn spec_hex_digit(d: int) -> char {
    if d < 10 {
        spec_digit(d)
    } else {
        ((97 + (d - 10)) as u8) as char
    }
}

/// How one character appears inside a JSON string literal.
pub open spec fn spec_escape_char(c: char) -> Seq<char> {
    if c == '"' {
        seq!['\\', '"']
    } else if c == '\\' {
        seq!['\\', '\\']
    } else if c == '\u{8}' {
        seq!['\\', 'b']
    } else if c == '\u{c}' {
        seq!['\\', 'f']
    } else if c == '\n' {
        seq!['\\', 'n']
    } else if c == '\r' {
        seq!['\\', 'r']
    } else if c == '\t' {
        seq!['\\', 't']
    } else if (c as u32) < 32 {
        seq!['\\', 'u', '0', '0', spec_hex_digit((c as u32) as int / 16),
            spec_hex_digit((c as u32) as int % 16)]
    } else {
        seq![c]
    }
}

/// The body of a JSON string literal for the characters `s`.
pub open spec fn spec_escape(s: Seq<char>) -> Seq<char>
    decreases s.len(),
{
    if s.len() == 0 {
        Seq::empty()
    } else {
        spec_escape(s.drop_last()) + spec_escape_char(s.last())
    }
}

/// The serialized text of a JSON value. This is the canonical form the
/// client emits: no whitespace, object fields in their stored order.
pub open spec fn spec_text(v: JsonV) -> Seq<char>
    decreases v,
{
    match v {
        JsonV::Null => "null"@,
        JsonV::Bool(b) => if b {
            "true"@
        } else {
            "false"@
        },
        JsonV::UInt(n) => spec_dec(n as nat),
        JsonV::NegInt(n) => seq!['-'] + spec_dec(n as nat),
        JsonV::NumLit(t) => t,
        JsonV::Str(s) => seq!['"'] + spec_escape(s) + seq!['"'],
        JsonV::Arr(vs) => seq!['['] + spec_text_elems(vs) + seq![']'],
        JsonV::Obj(fs) => seq!['{'] + spec_text_fields(fs) + seq!['}'],
    }
}

/// The comma-separated serialized texts of the array elements `vs`.
pub open spec fn spec_text_elems(vs: Seq<JsonV>) -> Seq<char>
    decreases vs via spec_text_elems_decreases
{
    if vs.len() == 0 {
        Seq::empty()
    } else if vs.len() == 1 {
        spec_text(vs.last())
    } else {
        spec_text_elems(vs.drop_last()) + seq![','] + spec_text(vs.last())
    }
}

#[via_fn]
proof fn spec_text_elems_decreases(vs: Seq<JsonV>) {
    if vs.len() > 0 {
        assert(decreases_to!(vs => vs.last()));
        vstd::seq::axiom_seq_subrange_decreases(vs, 0, vs.len() - 1);
        assert(vs.drop_last() == vs.subrange(0, vs.len() - 1));
    }
}

/// The serialized text of one object field.
pub open spec fn spec_text_field(f: (Seq<char>, JsonV)) -> Seq<char>
    decreases f via spec_text_field_decreases
{
    seq!['"'] + spec_escape(f.0) + seq!['"', ':'] + spec_text(f.1)
}

#[via_fn]
proof fn spec_text_field_decreases(f: (Seq<char>, JsonV)) {
    assert(decreases_to!(f => f.1));
}

/// The comma-separated serialized texts of the object fields `fs`.
pub open spec fn spec_text_fields(fs: Seq<(Seq<char>, JsonV)>) -> Seq<char>
    decreases fs via spec_text_fields_decreases
{
    if fs.len() == 0 {
        Seq::empty()
    } else if fs.len() == 1 {
        spec_text_field(fs.last())
    } else {
        spec_text_fields(fs.drop_last()) + seq![','] + spec_text_field(fs.last())
    }
}

#[via_fn]
proof fn spec_text_fields_decreases(fs: Seq<(Seq<char>, JsonV)>) {
    if fs.len() > 0 {
        assert(decreases_to!(fs => fs.last()));
        assert(decreases_to!(fs.last() => fs.last().1));
        vstd::seq::axiom_seq_subrange_decreases(fs, 0, fs.len() - 1);
        assert(fs.drop_last() == fs.subrange(0, fs.len() - 1));
    }
}

/// Relies on `String::push`, which appends the given character to the string.
#[verifier::external_body]
fn push_char(out: &mut String, c: char)
    ensures
        final(out)@ == old(out)@.push(c),
{
    out.push(c);
}

/// Appends the decimal text of `n` to `out`.
fn write_dec(out: &mut String, n: u64)
    ensures
        final(out)@ == old(out)@ + spec_dec(n as nat),
    decreases n,
{
    if n < 10 {
        push_char(out, (48 + n as u8) as char);
        assert(final(out)@ =~= old(out)@ + spec_dec(n as nat));
    } else {
        write_dec(out, n / 10);
        push_char(out, (48 + (n % 10) as u8) as char);
        assert(final(out)@ =~= old(out)@ + spec_dec(n as nat));
    }
}

/// The lowercase hexadecimal digit character for `d`.
fn hex_digit(d: u8) -> (r: char)
    requires
        d < 16,
    ensures
        r == spec_hex_digit(d as int),
{
    if d < 10 {
        (48 + d) as char
    } else {
        (97 + (d - 10)) as char
    }
}

/// Appends the characters of `s`, escaped as inside a JSON string literal.
fn write_escaped(out: &mut String, s: &str)
    ensures
        final(out)@ == old(out)@ + spec_escape(s@),
{
    let ghost base = out@;
    let n = s.unicode_len();
    let mut i: usize = 0;
    while i < n
        invariant
            i <= n,
            n == s@.len(),
            out@ == base + spec_escape(s@.take(i as int)),
        decreases n - i,
    {
        let c = s.get_char(i);
        if c == '"' {
            push_char(out, '\\');
            push_char(out, '"');
        } else if c == '\\' {
            push_char(out, '\\');
            push_char(out, '\\');
        } else if c == '\u{8}' {
            push_char(out, '\\');
            push_char(out, 'b');
        } else if c == '\u{c}' {
            push_char(out, '\\');
            push_char(out, 'f');
        } else if c == '\n' {
            push_char(out, '\\');
            push_char(out, 'n');
        } else if c == '\r' {
            push_char(out, '\\');
            push_char(out, 'r');
        } else if c == '\t' {
            push_char(out, '\\');
            push_char(out, 't');
        } else if (c as u32) < 32 {
            push_char(out, '\\');
            push_char(out, 'u');
            push_char(out, '0');
            push_char(out, '0');
            let code = c as u32;
            push_char(out, hex_digit((code / 16) as u8));
            push_char(out, hex_digit((code % 16) as u8));
        } else {
            push_char(out, c);
        }
        proof {
            assert(s@.take(i + 1).drop_last() =~= s@.take(i as int));
            assert(s@.take(i + 1).last() == s@[i as int]);
            assert(out@ =~= base + spec_escape(s@.take(i + 1)));
        }
        i = i + 1;
    }
    proof {
        assert(s@.take(n as int) =~= s@);
    }
}

/// Appends the serialized text of `v` to `out`.
fn write_value(out: &mut String, v: &JsonValue)
    ensures
        final(out)@ == old(out)@ + spec_text(v@),
    decreases v,
{
    let ghost base = out@;
    match v {
        JsonValue::Null => {
            out.append("null");
        },
        JsonValue::Bool(b) => {
            if *b {
                out.append("true");
            } else {
                out.append("false");
            }
        },
        JsonValue::UInt(n) => {
            write_dec(out, *n);
        },
        JsonValue::NegInt(n) => {
            push_char(out, '-');
            write_dec(out, *n);
            assert(out@ =~= base + spec_text(v@));
        },
        JsonValue::NumLit(t) => {
            out.append(t.as_str());
        },
        JsonValue::Str(s) => {
            push_char(out, '"');
            write_escaped(out, s.as_str());
            push_char(out, '"');
            assert(out@ =~= base + spec_text(v@));
        },
        JsonValue::Arr(vs) => {
            let ghost m = view_elems(vs@);
            proof {
                lemma_view_elems(vs@);
            }
            push_char(out, '[');
            let n = vs.len();
            let mut k: usize = 0;
            while k < n
                invariant
                    k <= n,
                    n == vs.len(),
                    m == view_elems(vs@),
                    m.len() == vs@.len(),
                    forall|i: int| 0 <= i < vs@.len() ==> m[i] == vs@[i]@,
                    decreases_to!(*v => *vs),
                    out@ == base + seq!['['] + spec_text_elems(m.take(k as int)) + (
                    if 0 < k < n {
                        seq![',']
                    } else {
                        Seq::<char>::empty()
                    }),
                decreases n - k,
            {
                proof {
                    assert(decreases_to!(*vs => vs@));
                    assert(decreases_to!(vs@ => vs@[k as int]));
                }
                write_value(out, &vs[k]);
                if k + 1 < n {
                    push_char(out, ',');
                }
                proof {
                    assert(m.take(k + 1).drop_last() =~= m.take(k as int));
                    assert(m.take(k + 1).last() == m[k as int]);
                    assert(out@ =~= base + seq!['['] + spec_text_elems(m.take(k + 1)) + (
                    if 0 < k + 1 < n {
                        seq![',']
                    } else {
                        Seq::<char>::empty()
                    }));
                }
                k = k + 1;
            }
            push_char(out, ']');
            proof {
                assert(m.take(vs@.len() as int) =~= m);
                assert(out@ =~= base + spec_text(v@));
            }
        },
        JsonValue::Obj(fs) => {
            let ghost m = view_fields(fs@);
            proof {
                lemma_view_fields(fs@);
            }
            push_char(out, '{');
            let n = fs.len();
            let mut k: usize = 0;
            while k < n
                invariant
                    k <= n,
                    n == fs.len(),
                    m == view_fields(fs@),
                    m.len() == fs@.len(),
                    forall|i: int| 0 <= i < fs@.len() ==> m[i] == (fs@[i].0@, fs@[i].1@),
                    decreases_to!(*v => *fs),
                    out@ == base + seq!['{'] + spec_text_fields(m.take(k as int)) + (
                    if 0 < k < n {
                        seq![',']
                    } else {
                        Seq::<char>::empty()
                    }),
                decreases n - k,
            {
                push_char(out, '"');
                write_escaped(out, fs[k].0.as_str());
                push_char(out, '"');
                push_char(out, ':');
                proof {
                    assert(decreases_to!(*fs => fs@));
                    assert(decreases_to!(fs@ => fs@[k as int]));
                    assert(decreases_to!(fs@[k as int] => fs@[k as int].1));
                }
                write_value(out, &fs[k].1);
                if k + 1 < n {
                    push_char(out, ',');
                }
                proof {
                    assert(m.take(k + 1).drop_last() =~= m.take(k as int));
                    assert(m.take(k + 1).last() == m[k as int]);
                    assert(spec_text_field(m[k as int]) == seq!['"'] + spec_escape(
                        fs@[k as int].0@) + seq!['"', ':'] + spec_text(fs@[k as int].1@));
                    assert(out@ =~= base + seq!['{'] + spec_text_fields(m.take(k + 1)) + (
                    if 0 < k + 1 < n {
                        seq![',']
                    } else {
                        Seq::<char>::empty()
                    }));
                }
                k = k + 1;
            }
            push_char(out, '}');
            proof {
                assert(m.take(fs@.len() as int) =~= m);
                assert(out@ =~= base + spec_text(v@));
            }
        },
    }
}

/// The serialized text of `v`: the canonical form the client emits.
pub fn json_text(v: &JsonValue) -> (r: String)
    ensures
        r@ == spec_text(v@),
{
    let mut out = String::new();
    write_value(&mut out, v);
    out
}

/// A copy of `v` that stands for the same JSON value.
pub fn clone_value(v: &JsonValue) -> (r: JsonValue)
    ensures
        r@ == v@,
    decreases v,
{
    match v {
        JsonValue::Null => JsonValue::Null,
        JsonValue::Bool(b) => JsonValue::Bool(*b),
        JsonValue::UInt(n) => JsonValue::UInt(*n),
        JsonValue::NegInt(n) => JsonValue::NegInt(*n),
        JsonValue::NumLit(t) => JsonValue::NumLit(t.clone()),
        JsonValue::Str(s) => JsonValue::Str(s.clone()),
        JsonValue::Arr(vs) => {
            let mut out: Vec<JsonValue> = Vec::new();
            let n = vs.len();
            let mut k: usize = 0;
            while k < n
                invariant
                    k <= n,
                    n == vs@.len(),
                    out@.len() == k,
                    forall|i: int| 0 <= i < k ==> out@[i]@ == vs@[i]@,
                    decreases_to!(*v => *vs),
                decreases n - k,
            {
                proof {
                    assert(decreases_to!(*vs => vs@));
                    assert(decreases_to!(vs@ => vs@[k as int]));
                }
                let c = clone_value(&vs[k]);
                out.push(c);
                k = k + 1;
            }
            proof {
                lemma_view_elems(vs@);
                lemma_view_elems(out@);
                assert(view_elems(out@) =~= view_elems(vs@));
            }
            JsonValue::Arr(out)
        },
        JsonValue::Obj(fs) => {
            let mut out: Vec<(String, JsonValue)> = Vec::new();
            let n = fs.len();
            let mut k: usize = 0;
            while k < n
                invariant
                    k <= n,
                    n == fs@.len(),
                    out@.len() == k,
                    forall|i: int|
                        0 <= i < k ==> out@[i].0@ == fs@[i].0@ && out@[i].1@ == fs@[i].1@,
                    decreases_to!(*v => *fs),
                decreases n - k,
            {
                proof {
                    assert(decreases_to!(*fs => fs@));
                    assert(decreases_to!(fs@ => fs@[k as int]));
                    assert(decreases_to!(fs@[k as int] => fs@[k as int].1));
                }
                let key = fs[k].0.clone();
                let val = clone_value(&fs[k].1);
                out.push((key, val));
                k = k + 1;
            }
            proof {
                lemma_view_fields(fs@);
                lemma_view_fields(out@);
                assert(view_fields(out@) =~= view_fields(fs@));
            }
            JsonValue::Obj(out)
        },
    }
}

/// A copy of each element of `vs`, in order.
pub fn clone_values(vs: &Vec<JsonValue>) -> (r: Vec<JsonValue>)
    ensures
        r@.len() == vs@.len(),
        view_elems(r@) == view_elems(vs@),
{
    let mut out: Vec<JsonValue> = Vec::new();
    let n = vs.len();
    let mut k: usize = 0;
    while k < n
        invariant
            k <= n,
            n == vs@.len(),
            out@.len() == k,
            forall|i: int| 0 <= i < k ==> out@[i]@ == vs@[i]@,
        decreases n - k,
    {
        let c = clone_value(&vs[k]);
        out.push(c);
        k = k + 1;
    }
    proof {
        lemma_view_elems(vs@);
        lemma_view_elems(out@);
        assert(view_elems(out@) =~= view_elems(vs@));
    }
    out
}

/// A copy of each field of `fs`, in order.
pub fn clone_fields(fs: &Vec<(String, JsonValue)>) -> (r: Vec<(String, JsonValue)>)
    ensures
        r@.len() == fs@.len(),
        view_fields(r@) == view_fields(fs@),
{
    let mut out: Vec<(String, JsonValue)> = Vec::new();
    let n = fs.len();
    let mut k: usize = 0;
    while k < n
        invariant
            k <= n,
            n == fs@.len(),
            out@.len() == k,
            forall|i: int| 0 <= i < k ==> out@[i].0@ == fs@[i].0@ && out@[i].1@ == fs@[i].1@,
        decreases n - k,
    {
        let key = fs[k].0.clone();
        let val = clone_value(&fs[k].1);
        out.push((key, val));
        k = k + 1;
    }
    proof {
        lemma_view_fields(fs@);
        lemma_view_fields(out@);
        assert(view_fields(out@) =~= view_fields(fs@));
    }
    out
}

/// The value of the first field named `key`, if any.
pub open spec fn obj_lookup(fs: Seq<(Seq<char>, JsonV)>, key: Seq<char>) -> Option<JsonV>
    decreases fs.len(),
{
    if fs.len() == 0 {
        None
    } else if fs[0].0 == key {
        Some(fs[0].1)
    } else {
        obj_lookup(fs.drop_first(), key)
    }
}

/// Finds the first field named `key` in `fs`.
pub fn obj_get<'a>(fs: &'a Vec<(String, JsonValue)>, key: &str) -> (r: Option<
    &'a JsonValue,
>)
    ensures
        match r {
            Some(v) => obj_lookup(view_fields(fs@), key@) == Some(v@),
            None => obj_lookup(view_fields(fs@), key@) is None,
        },
{
    proof {
        lemma_view_fields(fs@);
    }
    let ghost m = view_fields(fs@);
    proof {
        assert(m.skip(0) =~= m);
    }
    let n = fs.len();
    let mut k: usize = 0;
    while k < n
        invariant
            k <= n,
            n == fs@.len(),
            m == view_fields(fs@),
            m.len() == fs@.len(),
            forall|i: int| 0 <= i < fs@.len() ==> m[i] == (fs@[i].0@, fs@[i].1@),
            obj_lookup(m, key@) == obj_lookup(m.skip(k as int), key@),
        decreases n - k,
    {
        if str_eq(fs[k].0.as_str(), key) {
            proof {
                assert(m.skip(k as int)[0] == m[k as int]);
                assert(obj_lookup(m.skip(k as int), key@) == Some(m[k as int].1));
            }
            return Some(&fs[k].1);
        }
        proof {
            assert(m.skip(k as int)[0] == m[k as int]);
            assert(m.skip(k as int).drop_first() =~= m.skip(k + 1));
        }
        k = k + 1;
    }
    proof {
        assert(m.skip(n as int).len() == 0);
    }
    None
}

/// Whether two string slices hold the same characters.
pub fn str_eq(a: &str, b: &str) -> (r: bool)
    ensures
        r == (a@ == b@),
{
    let na = a.unicode_len();
    let nb = b.unicode_len();
    if na != nb {
        proof {
            assert(a@ != b@);
        }
        return false;
    }
    let mut i: usize = 0;
    while i < na
        invariant
            i <= na,
            na == a@.len(),
            na == b@.len(),
            forall|k: int| 0 <= k < i ==> a@[k] == b@[k],
        decreases na - i,
    {
        if a.get_char(i) != b.get_char(i) {
            return false;
        }
        i = i + 1;
    }
    proof {
        assert(a@ =~= b@);
    }
    true
}

/// Whether `c` is JSON whitespace.
pub open spec fn is_ws_char(c: char) -> bool {
    c == ' ' || c == '\t' || c == '\n' || c == '\r'
}

/// Whether `c` is a decimal digit.
pub open spec fn is_digit_char(c: char) -> bool {
    48 <= (c as u32) <= 57
}

/// The numeric value of the decimal digit `c`.
pub open spec fn digit_val(c: char) -> int {
    (c as u32) - 48
}

/// The first index at or after `i` that does not hold JSON whitespace.
pub open spec fn ws_end(s: Seq<char>, i: int) -> int
    decreases s.len() - i,
{
    if 0 <= i < s.len() && is_ws_char(s[i]) {
        ws_end(s, i + 1)
    } else {
        i
    }
}

/// `ws_end` never moves backwards and never runs past the end.
pub proof fn lemma_ws_end(s: Seq<char>, i: int)
    requires
        0 <= i <= s.len(),
    ensures
        i <= ws_end(s, i) <= s.len(),
    decreases s.len() - i,
{
    if i < s.len() && is_ws_char(s[i]) {
        lemma_ws_end(s, i + 1);
    }
}

/// The first index at or after `i` that does not hold a decimal digit.
pub open spec fn digits_end(s: Seq<char>, i: int) -> int
    decreases s.len() - i,
{
    if 0 <= i < s.len() && is_digit_char(s[i]) {
        digits_end(s, i + 1)
    } else {
        i
    }
}

/// `digits_end` never moves backwards and never runs past the end.
pub proof fn lemma_digits_end(s: Seq<char>, i: int)
    requires
        0 <= i <= s.len(),
    ensures
        i <= digits_end(s, i) <= s.len(),
    decreases s.len() - i,
{
    if i < s.len() && is_digit_char(s[i]) {
        lemma_digits_end(s, i + 1);
    }
}

/// The value of the decimal digits `s[i..j]`, read left to right.
pub open spec fn dec_val(s: Seq<char>, i: int, j: int) -> nat
    decreases j - i,
{
    if i < j {
        dec_val(s, i, j - 1) * 10 + (if 0 <= j - 1 < s.len() && is_digit_char(s[j - 1]) {
            digit_val(s[j - 1]) as nat
        } else {
            0
        })
    } else {
        0
    }
}

/// A longer digit run never has a smaller value.
proof fn lemma_dec_val_grows(s: Seq<char>, i: int, k: int, j: int)
    requires
        i <= k <= j,
    ensures
        dec_val(s, i, k) <= dec_val(s, i, j),
    decreases j - k,
{
    if k < j {
        lemma_dec_val_grows(s, i, k, j - 1);
    }
}

/// The numeric value of a hexadecimal digit, or `None` for other characters.
pub open spec fn hex_val(c: char) -> Option<int> {
    let u = c as u32;
    if 48 <= u <= 57 {
        Some((u - 48) as int)
    } else if 97 <= u <= 102 {
        Some((u - 97 + 10) as int)
    } else if 65 <= u <= 70 {
        Some((u - 65 + 10) as int)
    } else {
        None
    }
}

/// Parse result of the body of a string literal, starting inside the quotes
/// at `i`: the decoded characters and the index after the closing quote.
/// Unicode escapes for surrogate code points are not accepted.
pub open spec fn sp_str_body(s: Seq<char>, i: int) -> Option<(Seq<char>, int)>
    decreases s.len() - i,
{
    if !(0 <= i < s.len()) {
        None
    } else {
        let c = s[i];
        if c == '"' {
            Some((Seq::empty(), i + 1))
        } else if c == '\\' {
            if i + 2 > s.len() {
                None
            } else {
                let e = s[i + 1];
                if e == 'u' {
                    if i + 6 > s.len() {
                        None
                    } else {
                        let h0 = hex_val(s[i + 2]);
                        let h1 = hex_val(s[i + 3]);
                        let h2 = hex_val(s[i + 4]);
                        let h3 = hex_val(s[i + 5]);
                        if h0 is None || h1 is None || h2 is None || h3 is None {
                            None
                        } else {
                            let code = h0->0 * 4096 + h1->0 * 256 + h2->0 * 16 + h3->0;
                            if 0xD800 <= code < 0xE000 {
                                None
                            } else {
                                match sp_str_body(s, i + 6) {
                                    None => None,
                                    Some((t, j)) => Some(
                                        (seq![(code as u32) as char] + t, j),
                                    ),
                                }
                            }
                        }
                    }
                } else {
                    let d: Option<char> = if e == '"' {
                        Some('"')
                    } else if e == '\\' {
                        Some('\\')
                    } else if e == '/' {
                        Some('/')
                    } else if e == 'b' {
                        Some('\u{8}')
                    } else if e == 'f' {
                        Some('\u{c}')
                    } else if e == 'n' {
                        Some('\n')
                    } else if e == 'r' {
                        Some('\r')
                    } else if e == 't' {
                        Some('\t')
                    } else {
                        None
                    };
                    match d {
                        None => None,
                        Some(dc) => match sp_str_body(s, i + 2) {
                            None => None,
                            Some((t, j)) => Some((seq![dc] + t, j)),
                        },
                    }
                }
            }
        } else if (c as u32) < 32 {
            None
        } else {
            match sp_str_body(s, i + 1) {
                None => None,
                Some((t, j)) => Some((seq![c] + t, j)),
            }
        }
    }
}

/// Parse result of a string literal starting at the opening quote `i`.
pub open spec fn sp_string(s: Seq<char>, i: int) -> Option<(Seq<char>, int)> {
    if 0 <= i < s.len() && s[i] == '"' {
        sp_str_body(s, i + 1)
    } else {
        None
    }
}

/// Parse result of a numeric literal starting at `i`: the value and the index
/// after it. Integers that fit in 64 bits become `UInt`/`NegInt`; any other
/// form is kept as its source text.
pub open spec fn sp_number(s: Seq<char>, i: int) -> Option<(JsonV, int)> {
    if !(0 <= i <= s.len()) {
        None
    } else {
        let d0 = if i < s.len() && s[i] == '-' {
            i + 1
        } else {
            i
        };
        let neg = d0 != i;
        if !(d0 < s.len() && is_digit_char(s[d0])) {
            None
        } else {
            let int_end = if s[d0] == '0' {
                d0 + 1
            } else {
                digits_end(s, d0)
            };
            let (has_frac, frac_end) = if int_end < s.len() && s[int_end] == '.' {
                if int_end + 1 < s.len() && is_digit_char(s[int_end + 1]) {
                    (true, digits_end(s, int_end + 1))
                } else {
                    (true, -1)
                }
            } else {
                (false, int_end)
            };
            if frac_end < 0 {
                None
            } else {
                let (has_exp, exp_end) = if frac_end < s.len() && (s[frac_end] == 'e'
                    || s[frac_end] == 'E') {
                    let sd = if frac_end + 1 < s.len() && (s[frac_end + 1] == '+'
                        || s[frac_end + 1] == '-') {
                        frac_end + 2
                    } else {
                        frac_end + 1
                    };
                    if sd < s.len() && is_digit_char(s[sd]) {
                        (true, digits_end(s, sd))
                    } else {
                        (true, -1)
                    }
                } else {
                    (false, frac_end)
                };
                if exp_end < 0 {
                    None
                } else if has_frac || has_exp {
                    Some((JsonV::NumLit(s.subrange(i, exp_end)), exp_end))
                } else {
                    let val = dec_val(s, d0, int_end);
                    if val > u64::MAX {
                        Some((JsonV::NumLit(s.subrange(i, exp_end)), exp_end))
                    } else if neg {
                        Some((JsonV::NegInt(val as u64), exp_end))
                    } else {
                        Some((JsonV::UInt(val as u64), exp_end))
                    }
                }
            }
        }
    }
}

/// Parse result of a JSON value starting exactly at `i` (no leading
/// whitespace).
pub open spec fn sp_value(s: Seq<char>, i: int) -> Option<(JsonV, int)>
    decreases s.len() - i, 0int,
{
    if !(0 <= i < s.len()) {
        None
    } else {
        let c = s[i];
        if c == '"' {
            match sp_string(s, i) {
                None => None,
                Some((t, j)) => Some((JsonV::Str(t), j)),
            }
        } else if c == '[' {
            let j0 = ws_end(s, i + 1);
            if i + 1 <= j0 < s.len() && s[j0] == ']' {
                Some((JsonV::Arr(Seq::empty()), j0 + 1))
            } else {
                match sp_arr_items(s, i + 1) {
                    None => None,
                    Some((vs, j)) => Some((JsonV::Arr(vs), j)),
                }
            }
        } else if c == '{' {
            let j0 = ws_end(s, i + 1);
            if i + 1 <= j0 < s.len() && s[j0] == '}' {
                Some((JsonV::Obj(Seq::empty()), j0 + 1))
            } else {
                match sp_obj_fields(s, i + 1) {
                    None => None,
                    Some((fs, j)) => Some((JsonV::Obj(fs), j)),
                }
            }
        } else if c == 't' {
            if i + 4 <= s.len() && s[i + 1] == 'r' && s[i + 2] == 'u' && s[i + 3] == 'e' {
                Some((JsonV::Bool(true), i + 4))
            } else {
                None
            }
        } else if c == 'f' {
            if i + 5 <= s.len() && s[i + 1] == 'a' && s[i + 2] == 'l' && s[i + 3] == 's'
                && s[i + 4] == 'e' {
                Some((JsonV::Bool(false), i + 5))
            } else {
                None
            }
        } else if c == 'n' {
            if i + 4 <= s.len() && s[i + 1] == 'u' && s[i + 2] == 'l' && s[i + 3] == 'l' {
                Some((JsonV::Null, i + 4))
            } else {
                None
            }
        } else if c == '-' || is_digit_char(c) {
            sp_number(s, i)
        } else {
            None
        }
    }
}

/// Parse result of the items of an array, starting just after `[` or after a
/// comma: the elements and the index after the closing bracket.
pub open spec fn sp_arr_items(s: Seq<char>, i: int) -> Option<(Seq<JsonV>, int)>
    decreases s.len() - i, 1int,
{
    if !(0 <= i <= s.len()) {
        None
    } else {
        let j = ws_end(s, i);
        if !(i <= j <= s.len()) {
            None
        } else {
            match sp_value(s, j) {
                None => None,
                Some((v, k)) => {
                    if !(j < k <= s.len()) {
                        None
                    } else {
                        let l = ws_end(s, k);
                        if !(k <= l <= s.len()) {
                            None
                        } else if l < s.len() && s[l] == ',' {
                            match sp_arr_items(s, l + 1) {
                                None => None,
                                Some((vs, m)) => Some((seq![v] + vs, m)),
                            }
                        } else if l < s.len() && s[l] == ']' {
                            Some((seq![v], l + 1))
                        } else {
                            None
                        }
                    }
                },
            }
        }
    }
}

/// Parse result of the fields of an object, starting just after `{` or after
/// a comma: the fields in source order and the index after the closing brace.
pub open spec fn sp_obj_fields(s: Seq<char>, i: int) -> Option<
    (Seq<(Seq<char>, JsonV)>, int),
>
    decreases s.len() - i, 1int,
{
    if !(0 <= i <= s.len()) {
        None
    } else {
        let j = ws_end(s, i);
        if !(i <= j <= s.len()) {
            None
        } else {
            match sp_string(s, j) {
                None => None,
                Some((key, k)) => {
                    if !(j < k <= s.len()) {
                        None
                    } else {
                        let l = ws_end(s, k);
                        if !(k <= l <= s.len() && l < s.len() && s[l] == ':') {
                            None
                        } else {
                            let m = ws_end(s, l + 1);
                            if !(l + 1 <= m <= s.len()) {
                                None
                            } else {
                                match sp_value(s, m) {
                                    None => None,
                                    Some((v, p)) => {
                                        if !(m < p <= s.len()) {
                                            None
                                        } else {
                                            let q = ws_end(s, p);
                                            if !(p <= q <= s.len()) {
                                                None
                                            } else if q < s.len() && s[q] == ',' {
                                                match sp_obj_fields(s, q + 1) {
                                                    None => None,
                                                    Some((fs, r)) => Some(
                                                        (seq![(key, v)] + fs, r),
                                                    ),
                                                }
                                            } else if q < s.len() && s[q] == '}' {
                                                Some((seq![(key, v)], q + 1))
                                            } else {
                                                None
                                            }
                                        }
                                    },
                                }
                            }
                        }
                    }
                },
            }
        }
    }
}

/// Parse result of a complete JSON document: the value, provided nothing but
/// whitespace surrounds it.
pub open spec fn spec_parse(s: Seq<char>) -> Option<JsonV> {
    let i = ws_end(s, 0);
    match sp_value(s, i) {
        None => None,
        Some((v, j)) => if 0 <= j <= s.len() && ws_end(s, j) == s.len() {
            Some(v)
        } else {
            None
        },
    }
}

/// Relies on `char::from_u32`, which returns the character with the given
/// code point, and `None` exactly for surrogate code points and values above
/// the largest code point.
#[verifier::external_body]
fn char_from_u32(u: u32) -> (r: Option<char>)
    ensures
        r == (if (0xD800 <= u < 0xE000) || u > 0x10FFFF {
            None::<char>
        } else {
            Some(u as char)
        }),
{
    char::from_u32(u)
}

/// Advances past JSON whitespace.
fn skip_ws(s: &str, i: usize) -> (j: usize)
    requires
        i as int <= s@.len(),
    ensures
        j as int == ws_end(s@, i as int),
        i <= j,
        j as int <= s@.len(),
{
    let n = s.unicode_len();
    let mut j = i;
    loop
        invariant_except_break
            i <= j,
            j as int <= s@.len(),
            n == s@.len(),
            ws_end(s@, i as int) == ws_end(s@, j as int),
        ensures
            i <= j,
            j as int <= s@.len(),
            j as int == ws_end(s@, i as int),
        decreases s@.len() - j,
    {
        if j >= n {
            break;
        }
        let c = s.get_char(j);
        if !(c == ' ' || c == '\t' || c == '\n' || c == '\r') {
            break;
        }
        j = j + 1;
    }
    j
}

/// Advances past decimal digits.
fn skip_digits(s: &str, i: usize) -> (j: usize)
    requires
        i as int <= s@.len(),
    ensures
        j as int == digits_end(s@, i as int),
        i <= j,
        j as int <= s@.len(),
        forall|k: int| i <= k < j ==> is_digit_char(s@[k]),
{
    let n = s.unicode_len();
    let mut j = i;
    loop
        invariant_except_break
            i <= j,
            j as int <= s@.len(),
            n == s@.len(),
            digits_end(s@, i as int) == digits_end(s@, j as int),
            forall|k: int| i <= k < j ==> is_digit_char(s@[k]),
        ensures
            i <= j,
            j as int <= s@.len(),
            j as int == digits_end(s@, i as int),
            forall|k: int| i <= k < j ==> is_digit_char(s@[k]),
        decreases s@.len() - j,
    {
        if j >= n {
            break;
        }
        let c = s.get_char(j);
        let u = c as u32;
        if !(48 <= u && u <= 57) {
            break;
        }
        j = j + 1;
    }
    j
}

/// Reads the value of the decimal digits `s[i..j]`, or reports that it does
/// not fit in 64 bits.
fn parse_dec(s: &str, i: usize, j: usize) -> (r: Option<u64>)
    requires
        i <= j,
        j as int <= s@.len(),
        forall|k: int| i <= k < j ==> is_digit_char(s@[k]),
    ensures
        match r {
            Some(u) => u as nat == dec_val(s@, i as int, j as int),
            None => dec_val(s@, i as int, j as int) > u64::MAX,
        },
{
    let mut acc: u64 = 0;
    let mut k = i;
    while k < j
        invariant
            i <= k <= j,
            j as int <= s@.len(),
            forall|m: int| i <= m < j ==> is_digit_char(s@[m]),
            acc as nat == dec_val(s@, i as int, k as int),
        decreases j - k,
    {
        let c = s.get_char(k);
        let d = (c as u32 - 48) as u64;
        if acc > (u64::MAX - d) / 10 {
            proof {
                assert(acc * 10 + d > u64::MAX) by (nonlinear_arith)
                    requires
                        acc > (u64::MAX - d) / 10,
                        d <= 9,
                ;
                assert(dec_val(s@, i as int, k + 1) == acc * 10 + d);
                lemma_dec_val_grows(s@, i as int, k + 1, j as int);
            }
            return None;
        }
        proof {
            assert(acc * 10 + d <= u64::MAX) by (nonlinear_arith)
                requires
                    acc <= (u64::MAX - d) / 10,
                    d <= 9,
            ;
        }
        acc = acc * 10 + d;
        k = k + 1;
    }
    Some(acc)
}

/// Reads the body of a string literal, returning the decoded characters and
/// the index after the closing quote.
fn parse_str_body(s: &str, i: usize) -> (r: Option<(String, usize)>)
    requires
        i as int <= s@.len(),
    ensures
        match r {
            Some(p) => sp_str_body(s@, i as int) == Some((p.0@, p.1 as int)) && i < p.1
                && p.1 as int <= s@.len(),
            None => sp_str_body(s@, i as int) is None,
        },
    decreases s@.len() - i,
{
    let n = s.unicode_len();
    if i >= n {
        return None;
    }
    let c = s.get_char(i);
    if c == '"' {
        let out = String::new();
        proof {
            assert(out@ =~= Seq::<char>::empty());
        }
        Some((out, i + 1))
    } else if c == '\\' {
        if n - i < 2 {
            return None;
        }
        let e = s.get_char(i + 1);
        if e == 'u' {
            if n - i < 6 {
                return None;
            }
            let h0 = hex_of_char(s.get_char(i + 2));
            let h1 = hex_of_char(s.get_char(i + 3));
            let h2 = hex_of_char(s.get_char(i + 4));
            let h3 = hex_of_char(s.get_char(i + 5));
            match (h0, h1, h2, h3) {
                (Some(a), Some(b), Some(cc), Some(d)) => {
                    let code: u32 = a as u32 * 4096 + b as u32 * 256 + cc as u32 * 16
                        + d as u32;
                    if 0xD800 <= code && code < 0xE000 {
                        return None;
                    }
                    let dc = match char_from_u32(code) {
                        Some(dc) => dc,
                        None => {
                            return None;
                        },
                    };
                    match parse_str_body(s, i + 6) {
                        None => None,
                        Some((t, j)) => {
                            let mut out = String::new();
                            push_char(&mut out, dc);
                            out.append(t.as_str());
                            proof {
                                assert(out@ =~= seq![dc] + t@);
                            }
                            Some((out, j))
                        },
                    }
                },
                _ => None,
            }
        } else {
            let d: Option<char> = if e == '"' {
                Some('"')
            } else if e == '\\' {
                Some('\\')
            } else if e == '/' {
                Some('/')
            } else if e == 'b' {
                Some('\u{8}')
            } else if e == 'f' {
                Some('\u{c}')
            } else if e == 'n' {
                Some('\n')
            } else if e == 'r' {
                Some('\r')
            } else if e == 't' {
                Some('\t')
            } else {
                None
            };
            match d {
                None => None,
                Some(dc) => match parse_str_body(s, i + 2) {
                    None => None,
                    Some((t, j)) => {
                        let mut out = String::new();
                        push_char(&mut out, dc);
                        out.append(t.as_str());
                        proof {
                            assert(out@ =~= seq![dc] + t@);
                        }
                        Some((out, j))
                    },
                },
            }
        }
    } else if (c as u32) < 32 {
        None
    } else {
        match parse_str_body(s, i + 1) {
            None => None,
            Some((t, j)) => {
                let mut out = String::new();
                push_char(&mut out, c);
                out.append(t.as_str());
                proof {
                    assert(out@ =~= seq![c] + t@);
                }
                Some((out, j))
            },
        }
    }
}

/// The numeric value of a hexadecimal digit character.
fn hex_of_char(c: char) -> (r: Option<u8>)
    ensures
        match r {
            Some(d) => hex_val(c) == Some(d as int) && d < 16,
            None => hex_val(c) is None,
        },
{
    let u = c as u32;
    if 48 <= u && u <= 57 {
        Some((u - 48) as u8)
    } else if 97 <= u && u <= 102 {
        Some((u - 97 + 10) as u8)
    } else if 65 <= u && u <= 70 {
        Some((u - 65 + 10) as u8)
    } else {
        None
    }
}

/// Reads a string literal starting at its opening quote.
fn parse_string(s: &str, i: usize) -> (r: Option<(String, usize)>)
    requires
        i as int <= s@.len(),
    ensures
        match r {
            Some(p) => sp_string(s@, i as int) == Some((p.0@, p.1 as int)) && i < p.1
                && p.1 as int <= s@.len(),
            None => sp_string(s@, i as int) is None,
        },
{
    let n = s.unicode_len();
    if i < n && s.get_char(i) == '"' {
        parse_str_body(s, i + 1)
    } else {
        None
    }
}

/// Reads a numeric literal starting at `i`.
fn parse_number(s: &str, i: usize) -> (r: Option<(JsonValue, usize)>)
    requires
        i as int <= s@.len(),
    ensures
        match r {
            Some(p) => sp_number(s@, i as int) == Some((p.0@, p.1 as int)) && i < p.1
                && p.1 as int <= s@.len(),
            None => sp_number(s@, i as int) is None,
        },
{
    let n = s.unicode_len();
    let d0 = if i < n && s.get_char(i) == '-' {
        i + 1
    } else {
        i
    };
    let neg = d0 != i;
    if !(d0 < n && {
        let u = s.get_char(d0) as u32;
        48 <= u && u <= 57
    }) {
        return None;
    }
    let int_end = if s.get_char(d0) == '0' {
        d0 + 1
    } else {
        let e = skip_digits(s, d0);
        proof {
            assert(digits_end(s@, d0 as int) == digits_end(s@, d0 as int + 1));
            lemma_digits_end(s@, d0 as int + 1);
        }
        e
    };
    let mut has_frac = false;
    let mut frac_end = int_end;
    if int_end < n && s.get_char(int_end) == '.' {
        has_frac = true;
        if int_end + 1 < n && {
            let u = s.get_char(int_end + 1) as u32;
            48 <= u && u <= 57
        } {
            frac_end = skip_digits(s, int_end + 1);
        } else {
            return None;
        }
    }
    let mut has_exp = false;
    let mut exp_end = frac_end;
    if frac_end < n && (s.get_char(frac_end) == 'e' || s.get_char(frac_end) == 'E') {
        has_exp = true;
        let sd = if frac_end + 1 < n && (s.get_char(frac_end + 1) == '+' || s.get_char(
            frac_end + 1,
        ) == '-') {
            frac_end + 2
        } else {
            frac_end + 1
        };
        if sd < n && {
            let u = s.get_char(sd) as u32;
            48 <= u && u <= 57
        } {
            exp_end = skip_digits(s, sd);
        } else {
            return None;
        }
    }
    if has_frac || has_exp {
        let raw = s.substring_char(i, exp_end).to_owned();
        return Some((JsonValue::NumLit(raw), exp_end));
    }
    match parse_dec(s, d0, int_end) {
        None => {
            let raw = s.substring_char(i, exp_end).to_owned();
            Some((JsonValue::NumLit(raw), exp_end))
        },
        Some(u) => if neg {
            Some((JsonValue::NegInt(u), exp_end))
        } else {
            Some((JsonValue::UInt(u), exp_end))
        },
    }
}

/// Reads a JSON value starting exactly at `i`.
fn parse_value(s: &str, i: usize) -> (r: Option<(JsonValue, usize)>)
    requires
        i as int <= s@.len(),
    ensures
        match r {
            Some(p) => sp_value(s@, i as int) == Some((p.0@, p.1 as int)) && i < p.1
                && p.1 as int <= s@.len(),
            None => sp_value(s@, i as int) is None,
        },
    decreases s@.len() - i, 0int,
{
    let n = s.unicode_len();
    if i >= n {
        return None;
    }
    let c = s.get_char(i);
    if c == '"' {
        match parse_string(s, i) {
            None => None,
            Some((t, j)) => Some((JsonValue::Str(t), j)),
        }
    } else if c == '[' {
        let j0 = skip_ws(s, i + 1);
        if j0 < n && s.get_char(j0) == ']' {
            let vs: Vec<JsonValue> = Vec::new();
            proof {
                assert(view_elems(vs@) =~= Seq::<JsonV>::empty());
            }
            Some((JsonValue::Arr(vs), j0 + 1))
        } else {
            match parse_arr_items(s, i + 1) {
                None => None,
                Some((vs, j)) => Some((JsonValue::Arr(vs), j)),
            }
        }
    } else if c == '{' {
        let j0 = skip_ws(s, i + 1);
        if j0 < n && s.get_char(j0) == '}' {
            let fs: Vec<(String, JsonValue)> = Vec::new();
            proof {
                assert(view_fields(fs@) =~= Seq::<(Seq<char>, JsonV)>::empty());
            }
            Some((JsonValue::Obj(fs), j0 + 1))
        } else {
            match parse_obj_fields(s, i + 1) {
                None => None,
                Some((fs, j)) => Some((JsonValue::Obj(fs), j)),
            }
        }
    } else if c == 't' {
        if n - i >= 4 && s.get_char(i + 1) == 'r' && s.get_char(i + 2) == 'u' && s.get_char(
            i + 3,
        ) == 'e' {
            Some((JsonValue::Bool(true), i + 4))
        } else {
            None
        }
    } else if c == 'f' {
        if n - i >= 5 && s.get_char(i + 1) == 'a' && s.get_char(i + 2) == 'l' && s.get_char(
            i + 3,
        ) == 's' && s.get_char(i + 4) == 'e' {
            Some((JsonValue::Bool(false), i + 5))
        } else {
            None
        }
    } else if c == 'n' {
        if n - i >= 4 && s.get_char(i + 1) == 'u' && s.get_char(i + 2) == 'l' && s.get_char(
            i + 3,
        ) == 'l' {
            Some((JsonValue::Null, i + 4))
        } else {
            None
        }
    } else if c == '-' || {
        let u = c as u32;
        48 <= u && u <= 57
    } {
        parse_number(s, i)
    } else {
        None
    }
}

/// Reads the items of an array, starting just after `[` or after a comma.
fn parse_arr_items(s: &str, i: usize) -> (r: Option<(Vec<JsonValue>, usize)>)
    requires
        i as int <= s@.len(),
    ensures
        match r {
            Some(p) => sp_arr_items(s@, i as int) == Some((view_elems(p.0@), p.1 as int))
                && i < p.1 && p.1 as int <= s@.len(),
            None => sp_arr_items(s@, i as int) is None,
        },
    decreases s@.len() - i, 1int,
{
    let n = s.unicode_len();
    let j = skip_ws(s, i);
    match parse_value(s, j) {
        None => None,
        Some((v, k)) => {
            let l = skip_ws(s, k);
            if l < n && s.get_char(l) == ',' {
                match parse_arr_items(s, l + 1) {
                    None => None,
                    Some((mut vs, m)) => {
                        let ghost rest = vs@;
                        vs.insert(0, v);
                        proof {
                            assert(vs@[0] == v);
                            assert(vs@.drop_first() =~= rest);
                            assert(view_elems(vs@) =~= seq![v@] + view_elems(rest));
                        }
                        Some((vs, m))
                    },
                }
            } else if l < n && s.get_char(l) == ']' {
                let mut vs: Vec<JsonValue> = Vec::new();
                vs.push(v);
                proof {
                    assert(vs@.drop_first() =~= Seq::<JsonValue>::empty());
                    assert(view_elems(vs@.drop_first()) =~= Seq::<JsonV>::empty());
                    assert(view_elems(vs@) =~= seq![v@]);
                }
                Some((vs, l + 1))
            } else {
                None
            }
        },
    }
}

/// Reads the fields of an object, starting just after `{` or after a comma.
fn parse_obj_fields(s: &str, i: usize) -> (r: Option<(Vec<(String, JsonValue)>, usize)>)
    requires
        i as int <= s@.len(),
    ensures
        match r {
            Some(p) => sp_obj_fields(s@, i as int) == Some(
                (view_fields(p.0@), p.1 as int),
            ) && i < p.1 && p.1 as int <= s@.len(),
            None => sp_obj_fields(s@, i as int) is None,
        },
    decreases s@.len() - i, 1int,
{
    let n = s.unicode_len();
    let j = skip_ws(s, i);
    match parse_string(s, j) {
        None => None,
        Some((key, k)) => {
            let l = skip_ws(s, k);
            if !(l < n && s.get_char(l) == ':') {
                return None;
            }
            let m = skip_ws(s, l + 1);
            match parse_value(s, m) {
                None => None,
                Some((v, p)) => {
                    let q = skip_ws(s, p);
                    if q < n && s.get_char(q) == ',' {
                        match parse_obj_fields(s, q + 1) {
                            None => None,
                            Some((mut fs, rr)) => {
                                let ghost rest = fs@;
                                fs.insert(0, (key, v));
                                proof {
                                    assert(fs@[0] == (key, v));
                                    assert(fs@.drop_first() =~= rest);
                                    assert(view_fields(fs@) =~= seq![(key@, v@)]
                                        + view_fields(rest));
                                }
                                Some((fs, rr))
                            },
                        }
                    } else if q < n && s.get_char(q) == '}' {
                        let mut fs: Vec<(String, JsonValue)> = Vec::new();
                        fs.push((key, v));
                        proof {
                            assert(fs@.drop_first() =~= Seq::<(String, JsonValue)>::empty());
                            assert(view_fields(fs@.drop_first()) =~= Seq::<
                                (Seq<char>, JsonV),
                            >::empty());
                            assert(fs@[0] == (key, v));
                            assert(view_fields(fs@) =~= seq![(key@, v@)]);
                        }
                        Some((fs, q + 1))
                    } else {
                        None
                    }
                },
            }
        },
    }
}

/// Reads a complete JSON document: the value, provided nothing but whitespace
/// surrounds it.
pub fn parse_json(s: &str) -> (r: Option<JsonValue>)
    ensures
        match r {
            Some(v) => spec_parse(s@) == Some(v@),
            None => spec_parse(s@) is None,
        },
{
    let n = s.unicode_len();
    let i = skip_ws(s, 0);
    match parse_value(s, i) {
        None => None,
        Some((v, j)) => {
            let k = skip_ws(s, j);
            if k == n {
                Some(v)
            } else {
                None
            }
        },
    }
}

} // verus!
