//! A small JSON document model and a deterministic serializer for it. The
//! forwarding-engine configuration is emitted through this module, so its
//! exact textual content is pinned by `json_text`.

use vstd::prelude::*;
use crate::text::{chars_to_string, dec_chars, dec_rep, digit_char};

verus! {

/// A JSON value as built by the synthesizer. Object members keep their
/// insertion order; serialization follows it exactly.
pub enum JsonVal {
    Null,
    Bool(bool),
    UInt(u64),
    Str(String),
    Arr(Vec<JsonVal>),
    Obj(Vec<(String, JsonVal)>),
}

/// The hexadecimal digit for a value below sixteen, lower case.
pub open spec fn hex_digit(d: int) -> char {
    if d < 10 {
        digit_char(d)
    } else if d == 10 {
        'a'
    } else if d == 11 {
        'b'
    } else if d == 12 {
        'c'
    } else if d == 13 {
        'd'
    } else if d == 14 {
        'e'
    } else {
        'f'
    }
}

/// How one character appears inside a JSON string literal.
pub open spec fn escape_char(c: char) -> Seq<char> {
    if c == '"' {
        seq!['\\', '"']
    } else if c == '\\' {
        seq!['\\', '\\']
    } else if c == '\n' {
        seq!['\\', 'n']
    } else if c == '\r' {
        seq!['\\', 'r']
    } else if c == '\t' {
        seq!['\\', 't']
    } else if (c as u32) < 32 {
        seq!['\\', 'u', '0', '0', hex_digit((c as u32 / 16) as int), hex_digit(
            (c as u32 % 16) as int,
        )]
    } else {
        seq![c]
    }
}

/// A whole string body, escaped character by character.
pub open spec fn escape_seq(s: Seq<char>) -> Seq<char>
    decreases s.len(),
{
    if s.len() == 0 {
        Seq::empty()
    } else {
        escape_char(s[0]) + escape_seq(s.drop_first())
    }
}

/// A quoted, escaped JSON string literal.
pub open spec fn str_text(s: Seq<char>) -> Seq<char> {
    seq!['"'] + escape_seq(s) + seq!['"']
}

/// The serialized form of a value: compact, no whitespace, members in order.
pub open spec fn json_text(v: JsonVal) -> Seq<char>
    decreases v,
{
    match v {
        JsonVal::Null => "null"@,
        JsonVal::Bool(b) => if b {
            "true"@
        } else {
            "false"@
        },
        JsonVal::UInt(n) => dec_rep(n as nat),
        JsonVal::Str(s) => str_text(s@),
        JsonVal::Arr(items) => seq!['['] + items_prefix_text(items@, items@.len() as int)
            + seq![']'],
        JsonVal::Obj(members) => seq!['{'] + members_prefix_text(members@, members@.len() as int)
            + seq!['}'],
    }
}

/// The comma-separated serialization of the first `k` array items.
pub open spec fn items_prefix_text(items: Seq<JsonVal>, k: int) -> Seq<char>
    decreases items, k,
{
    if k <= 0 || k > items.len() {
        Seq::empty()
    } else if k == 1 {
        json_text(items[0])
    } else {
        items_prefix_text(items, k - 1) + seq![','] + json_text(items[k - 1])
    }
}

/// One object member, `"key":value`.
pub open spec fn member_text(m: (String, JsonVal)) -> Seq<char>
    decreases m,
{
    str_text(m.0@) + seq![':'] + json_text(m.1)
}

/// The comma-separated serialization of the first `k` object members.
pub open spec fn members_prefix_text(members: Seq<(String, JsonVal)>, k: int) -> Seq<char>
    decreases members, k,
{
    if k <= 0 || k > members.len() {
        Seq::empty()
    } else if k == 1 {
        member_text(members[0])
    } else {
        members_prefix_text(members, k - 1) + seq![','] + member_text(members[k - 1])
    }
}

fn hex_digit_exec(d: u32) -> (c: char)
    requires
        d < 16,
    ensures
        c == hex_digit(d as int),
{
    match d {
        0 => '0',
        1 => '1',
        2 => '2',
        3 => '3',
        4 => '4',
        5 => '5',
        6 => '6',
        7 => '7',
        8 => '8',
        9 => '9',
        10 => 'a',
        11 => 'b',
        12 => 'c',
        13 => 'd',
        14 => 'e',
        _ => 'f',
    }
}

proof fn lemma_escape_push(s: Seq<char>, c: char)
    ensures
        escape_seq(s.push(c)) == escape_seq(s) + escape_char(c),
    decreases s.len(),
{
    if s.len() == 0 {
        assert(s =~= Seq::<char>::empty());
        assert(s.push(c) =~= seq![c]);
        assert(seq![c].drop_first() =~= Seq::<char>::empty());
        assert(escape_seq(Seq::<char>::empty()) == Seq::<char>::empty());
        assert(escape_seq(seq![c]) == escape_char(c) + Seq::<char>::empty());
        assert(escape_char(c) + Seq::<char>::empty() =~= escape_char(c));
        assert(escape_seq(s) + escape_char(c) =~= escape_char(c));
    } else {
        assert(s.push(c).drop_first() =~= s.drop_first().push(c));
        lemma_escape_push(s.drop_first(), c);
        assert(escape_seq(s.push(c)) == escape_char(s[0]) + (escape_seq(s.drop_first())
            + escape_char(c)));
        assert(escape_char(s[0]) + (escape_seq(s.drop_first()) + escape_char(c)) =~= escape_seq(s)
            + escape_char(c));
    }
}

fn push_escaped(s: &String, out: &mut Vec<char>)
    ensures
        final(out)@ == old(out)@ + escape_seq(s@),
{
    let chars = crate::text::str_to_chars(s.as_str());
    let mut i: usize = 0;
    while i < chars.len()
        invariant
            chars@ == s@,
            i <= s@.len(),
            out@ == old(out)@ + escape_seq(s@.subrange(0, i as int)),
        decreases s@.len() - i,
    {
        let c = chars[i];
        proof {
            assert(s@.subrange(0, i + 1) =~= s@.subrange(0, i as int).push(s@[i as int]));
            lemma_escape_push(s@.subrange(0, i as int), s@[i as int]);
        }
        let u = c as u32;
        if c == '"' {
            out.push('\\');
            out.push('"');
        } else if c == '\\' {
            out.push('\\');
            out.push('\\');
        } else if c == '\n' {
            out.push('\\');
            out.push('n');
        } else if c == '\r' {
            out.push('\\');
            out.push('r');
        } else if c == '\t' {
            out.push('\\');
            out.push('t');
        } else if u < 32 {
            out.push('\\');
            out.push('u');
            out.push('0');
            out.push('0');
            out.push(hex_digit_exec(u / 16));
            out.push(hex_digit_exec(u % 16));
        } else {
            out.push(c);
        }
        proof {
            assert(out@ =~= old(out)@ + escape_seq(s@.subrange(0, i + 1)));
        }
        i = i + 1;
    }
    proof {
        assert(s@.subrange(0, s@.len() as int) =~= s@);
    }
}

fn push_str_text(s: &String, out: &mut Vec<char>)
    ensures
        final(out)@ == old(out)@ + str_text(s@),
{
    out.push('"');
    push_escaped(s, out);
    out.push('"');
    proof {
        assert(out@ =~= old(out)@ + str_text(s@));
    }
}

/// Serializes `v` onto `out`, exactly as `json_text` states.
pub fn write_json(v: &JsonVal, out: &mut Vec<char>)
    ensures
        final(out)@ == old(out)@ + json_text(*v),
    decreases *v,
{
    match v {
        JsonVal::Null => {
            out.push('n');
            out.push('u');
            out.push('l');
            out.push('l');
            proof {
                reveal_strlit("null");
                assert(out@ =~= old(out)@ + json_text(*v));
            }
        },
        JsonVal::Bool(b) => {
            if *b {
                out.push('t');
                out.push('r');
                out.push('u');
                out.push('e');
                proof {
                    reveal_strlit("true");
                    assert(out@ =~= old(out)@ + json_text(*v));
                }
            } else {
                out.push('f');
                out.push('a');
                out.push('l');
                out.push('s');
                out.push('e');
                proof {
                    reveal_strlit("false");
                    assert(out@ =~= old(out)@ + json_text(*v));
                }
            }
        },
        JsonVal::UInt(n) => {
            let digits = dec_chars(*n);
            let mut k: usize = 0;
            while k < digits.len()
                invariant
                    digits@ == dec_rep(*n as nat),
                    k <= digits@.len(),
                    out@ == old(out)@ + digits@.subrange(0, k as int),
                decreases digits@.len() - k,
            {
                out.push(digits[k]);
                proof {
                    assert(out@ =~= old(out)@ + digits@.subrange(0, k + 1));
                }
                k = k + 1;
            }
            proof {
                assert(digits@.subrange(0, digits@.len() as int) =~= digits@);
                assert(out@ =~= old(out)@ + json_text(*v));
            }
        },
        JsonVal::Str(s) => {
            push_str_text(s, out);
        },
        JsonVal::Arr(items) => {
            out.push('[');
            let mut k: usize = 0;
            while k < items.len()
                invariant
                    *v is Arr && v->Arr_0 == *items,
                    out@ == old(out)@ + seq!['['] + items_prefix_text(items@, k as int),
                    k <= items@.len(),
                decreases items@.len() - k,
        {
            if k > 0 {
                out.push(',');
            }
            proof {
                assert(*v is Arr && v->Arr_0 == *items);
                assert(decreases_to!(*v => v->Arr_0));
                assert(decreases_to!(v->Arr_0 => v->Arr_0@));
                assert(decreases_to!(v->Arr_0@ => v->Arr_0@[k as int]));
                assert(decreases_to!(*v => items@[k as int]));
            }
            write_json(&items[k], out);
            proof {
                assert(out@ =~= old(out)@ + seq!['['] + items_prefix_text(items@, k + 1));
            }
            k = k + 1;
        }
            out.push(']');
            proof {
                assert(out@ =~= old(out)@ + json_text(*v));
            }
        },
        JsonVal::Obj(members) => {
            out.push('{');
            let mut k: usize = 0;
            while k < members.len()
                invariant
                    *v is Obj && v->Obj_0 == *members,
                    out@ == old(out)@ + seq!['{'] + members_prefix_text(members@, k as int),
                    k <= members@.len(),
        decreases members@.len() - k,
        {
            if k > 0 {
                out.push(',');
            }
            push_str_text(&members[k].0, out);
            out.push(':');
            proof {
                assert(*v is Obj && v->Obj_0 == *members);
                assert(decreases_to!(*v => v->Obj_0));
                assert(decreases_to!(v->Obj_0 => v->Obj_0@));
                assert(decreases_to!(v->Obj_0@ => v->Obj_0@[k as int]));
                assert(decreases_to!(v->Obj_0@[k as int] => v->Obj_0@[k as int].1));
                assert(decreases_to!(*v => members@[k as int].1));
            }
            write_json(&members[k].1, out);
            proof {
                assert(member_text(members@[k as int]) == str_text(members@[k as int].0@)
                    + seq![':'] + json_text(members@[k as int].1));
                assert(out@ =~= old(out)@ + seq!['{'] + members_prefix_text(members@, k + 1));
            }
            k = k + 1;
        }
            out.push('}');
            proof {
                assert(out@ =~= old(out)@ + json_text(*v));
            }
        },
    }
}

/// The serialized document as a `String`.
pub fn json_to_string(v: &JsonVal) -> (s: String)
    ensures
        s@ == json_text(*v),
{
    let mut out: Vec<char> = Vec::new();
    write_json(v, &mut out);
    chars_to_string(&out)
}

/// The ghost mirror of a JSON value: the same tree with mathematical leaves,
/// so that contracts can spell out a whole expected document.
#[verifier::ext_equal]
pub enum JsonRep {
    Null,
    Bool(bool),
    UInt(nat),
    Str(Seq<char>),
    Arr(Seq<JsonRep>),
    Obj(Seq<(Seq<char>, JsonRep)>),
}

/// The serialized form of a ghost value; agrees with `json_text` through
/// `jrep` (see `lemma_json_text_is_rep_text`).
pub open spec fn rep_text(r: JsonRep) -> Seq<char>
    decreases r,
{
    match r {
        JsonRep::Null => "null"@,
        JsonRep::Bool(b) => if b {
            "true"@
        } else {
            "false"@
        },
        JsonRep::UInt(n) => dec_rep(n),
        JsonRep::Str(s) => str_text(s),
        JsonRep::Arr(items) => seq!['['] + rep_items_text(items, items.len() as int) + seq![']'],
        JsonRep::Obj(members) => seq!['{'] + rep_members_text(members, members.len() as int)
            + seq!['}'],
    }
}

/// The comma-separated serialization of the first `k` ghost array items.
pub open spec fn rep_items_text(items: Seq<JsonRep>, k: int) -> Seq<char>
    decreases items, k,
{
    if k <= 0 || k > items.len() {
        Seq::empty()
    } else if k == 1 {
        rep_text(items[0])
    } else {
        rep_items_text(items, k - 1) + seq![','] + rep_text(items[k - 1])
    }
}

/// One ghost object member, `"key":value`.
pub open spec fn rep_member_text(m: (Seq<char>, JsonRep)) -> Seq<char>
    decreases m,
{
    str_text(m.0) + seq![':'] + rep_text(m.1)
}

/// The comma-separated serialization of the first `k` ghost object members.
pub open spec fn rep_members_text(members: Seq<(Seq<char>, JsonRep)>, k: int) -> Seq<char>
    decreases members, k,
{
    if k <= 0 || k > members.len() {
        Seq::empty()
    } else if k == 1 {
        rep_member_text(members[0])
    } else {
        rep_members_text(members, k - 1) + seq![','] + rep_member_text(members[k - 1])
    }
}

/// The ghost mirror of an executable JSON value.
pub open spec fn jrep(v: JsonVal) -> JsonRep
    decreases v,
{
    match v {
        JsonVal::Null => JsonRep::Null,
        JsonVal::Bool(b) => JsonRep::Bool(b),
        JsonVal::UInt(n) => JsonRep::UInt(n as nat),
        JsonVal::Str(s) => JsonRep::Str(s@),
        JsonVal::Arr(items) => JsonRep::Arr(jrep_items(items@, items@.len() as int)),
        JsonVal::Obj(members) => JsonRep::Obj(jrep_members(members@, members@.len() as int)),
    }
}

/// The ghost mirrors of the first `k` array items.
pub open spec fn jrep_items(items: Seq<JsonVal>, k: int) -> Seq<JsonRep>
    decreases items, k,
{
    if k <= 0 || k > items.len() {
        Seq::empty()
    } else {
        jrep_items(items, k - 1).push(jrep(items[k - 1]))
    }
}

/// The ghost mirrors of the first `k` object members.
pub open spec fn jrep_members(members: Seq<(String, JsonVal)>, k: int) -> Seq<(Seq<char>, JsonRep)>
    decreases members, k,
{
    if k <= 0 || k > members.len() {
        Seq::empty()
    } else {
        jrep_members(members, k - 1).push((members[k - 1].0@, jrep(members[k - 1].1)))
    }
}

/// `jrep_items` keeps one mirrored item per item, in order.
pub proof fn lemma_jrep_items_index(items: Seq<JsonVal>, k: int)
    requires
        0 <= k <= items.len(),
    ensures
        jrep_items(items, k).len() == k,
        forall|i: int| 0 <= i < k ==> #[trigger] jrep_items(items, k)[i] == jrep(items[i]),
    decreases k,
{
    if k > 0 {
        lemma_jrep_items_index(items, k - 1);
    }
}

/// `jrep_members` keeps one mirrored member per member, in order.
pub proof fn lemma_jrep_members_index(members: Seq<(String, JsonVal)>, k: int)
    requires
        0 <= k <= members.len(),
    ensures
        jrep_members(members, k).len() == k,
        forall|i: int|
            0 <= i < k ==> #[trigger] jrep_members(members, k)[i] == (members[i].0@, jrep(
                members[i].1,
            )),
    decreases k,
{
    if k > 0 {
        lemma_jrep_members_index(members, k - 1);
    }
}

/// Mirroring a prefix ignores what stands after it.
pub proof fn lemma_jrep_items_push(items: Seq<JsonVal>, x: JsonVal, k: int)
    requires
        0 <= k <= items.len(),
    ensures
        jrep_items(items.push(x), k) == jrep_items(items, k),
    decreases k,
{
    if k > 0 {
        lemma_jrep_items_push(items, x, k - 1);
        assert(items.push(x)[k - 1] == items[k - 1]);
    }
}

/// Mirroring a prefix ignores what stands after it.
pub proof fn lemma_jrep_members_push(members: Seq<(String, JsonVal)>, x: (String, JsonVal), k: int)
    requires
        0 <= k <= members.len(),
    ensures
        jrep_members(members.push(x), k) == jrep_members(members, k),
    decreases k,
{
    if k > 0 {
        lemma_jrep_members_push(members, x, k - 1);
        assert(members.push(x)[k - 1] == members[k - 1]);
    }
}

proof fn lemma_items_text_rep(items: Seq<JsonVal>, k: int)
    requires
        0 <= k <= items.len(),
    ensures
        items_prefix_text(items, k) == rep_items_text(jrep_items(items, items.len() as int), k),
    decreases items, k,
{
    let reps = jrep_items(items, items.len() as int);
    lemma_jrep_items_index(items, items.len() as int);
    if k > 0 {
        lemma_items_text_rep(items, k - 1);
        lemma_json_text_is_rep_text(items[k - 1]);
    }
}

proof fn lemma_members_text_rep(members: Seq<(String, JsonVal)>, k: int)
    requires
        0 <= k <= members.len(),
    ensures
        members_prefix_text(members, k) == rep_members_text(
            jrep_members(members, members.len() as int),
            k,
        ),
    decreases members, k,
{
    let reps = jrep_members(members, members.len() as int);
    lemma_jrep_members_index(members, members.len() as int);
    if k > 0 {
        lemma_members_text_rep(members, k - 1);
        lemma_json_text_is_rep_text(members[k - 1].1);
        assert(reps.len() == members.len());
        assert(reps[k - 1] == (members[k - 1].0@, jrep(members[k - 1].1)));
        assert(rep_member_text(reps[k - 1]) == member_text(members[k - 1]));
        if k == 1 {
            assert(members_prefix_text(members, 1) == member_text(members[0]));
            assert(rep_members_text(reps, 1) == rep_member_text(reps[0]));
        } else {
            assert(members_prefix_text(members, k) == members_prefix_text(members, k - 1)
                + seq![','] + member_text(members[k - 1]));
            assert(rep_members_text(reps, k) == rep_members_text(reps, k - 1) + seq![',']
                + rep_member_text(reps[k - 1]));
        }
    }
}

/// Serialization commutes with mirroring: the text of a value is the text of
/// its ghost mirror.
pub proof fn lemma_json_text_is_rep_text(v: JsonVal)
    ensures
        json_text(v) == rep_text(jrep(v)),
    decreases v,
{
    match v {
        JsonVal::Arr(items) => {
            lemma_jrep_items_index(items@, items@.len() as int);
            lemma_items_text_rep(items@, items@.len() as int);
        },
        JsonVal::Obj(members) => {
            lemma_jrep_members_index(members@, members@.len() as int);
            lemma_members_text_rep(members@, members@.len() as int);
        },
        _ => {},
    }
}

} // verus!
