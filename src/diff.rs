use vstd::prelude::*;

use crate::address::{render_hex, AccountAddress};
use vstd::string::{is_ascii, StringSliceAdditionalSpecFns};

verus! {

broadcast use vstd::string::is_ascii_spec_bytes;

/// The bytes of an ASCII text.
pub open spec fn ascii(s: Seq<char>) -> Seq<u8> {
    s.map_values(|c: char| c as u8)
}

fn push_ascii(out: &mut Vec<u8>, s: &str)
    requires
        is_ascii(s),
    ensures
        final(out)@ == old(out)@ + ascii(s@),
{
    let b = s.as_bytes();
    let ghost start = out@;
    assert(b@ =~= ascii(s@));
    let mut i: usize = 0;
    while i < b.len()
        invariant
            i <= b@.len(),
            out@ == start + b@.subrange(0, i as int),
        decreases b@.len() - i,
    {
        out.push(b[i]);
        i = i + 1;
        assert(out@ =~= start + b@.subrange(0, i as int));
    }
    assert(b@.subrange(0, i as int) =~= b@);
}

/// Decimal digits of `n`, most significant first.
pub open spec fn decimal(n: nat) -> Seq<u8>
    decreases n,
{
    if n < 10 {
        seq![(n + 48) as u8]
    } else {
        decimal(n / 10).push((n % 10 + 48) as u8)
    }
}

/// A byte as it stands inside a JSON string.
pub open spec fn escaped_byte(b: u8) -> Seq<u8> {
    if b == 34 || b == 92 {
        seq![92u8, b]
    } else if b < 32 {
        seq![92u8, 117u8, 48u8, 48u8, hex_lower(b / 16), hex_lower(b % 16)]
    } else {
        seq![b]
    }
}

pub open spec fn hex_lower(n: u8) -> u8 {
    if n < 10 {
        (n + 48) as u8
    } else {
        (n + 87) as u8
    }
}

/// The bytes of `s`, each escaped for a JSON string.
pub open spec fn escaped(s: Seq<u8>) -> Seq<u8>
    decreases s.len(),
{
    if s.len() == 0 {
        Seq::empty()
    } else {
        escaped(s.drop_last()) + escaped_byte(s.last())
    }
}

/// A JSON string holding `s`.
pub open spec fn json_string(s: Seq<u8>) -> Seq<u8> {
    seq![34u8] + escaped(s) + seq![34u8]
}

/// The items, separated by commas.
pub open spec fn joined(items: Seq<Seq<u8>>) -> Seq<u8>
    decreases items.len(),
{
    if items.len() == 0 {
        Seq::empty()
    } else if items.len() == 1 {
        items[0]
    } else {
        joined(items.drop_last()) + seq![44u8] + items.last()
    }
}

/// The primitive kind of a resource field.
#[derive(Debug, Clone, Copy, PartialEq, Eq, Structural)]
pub enum LayoutKind {
    U8,
    U64,
    U128,
    Bool,
    Address,
}

/// The value of a resource field.
#[derive(Debug, PartialEq, Eq)]
pub enum Value {
    U8(u8),
    U64(u64),
    U128(u128),
    Bool(bool),
    Address(AccountAddress),
}

/// A resource type: owning address, module, name, type arguments and field layout.
#[derive(Debug, PartialEq, Eq)]
pub struct ResourceType {
    pub address: AccountAddress,
    pub module: Vec<u8>,
    pub name: Vec<u8>,
    pub ty_args: Vec<Vec<u8>>,
    pub layout: Vec<LayoutKind>,
}

/// What an execution did to a resource.
#[derive(Debug, PartialEq, Eq)]
pub enum Op {
    SetValue(Vec<Value>),
    Delete,
}

/// One entry of a state diff.
#[derive(Debug, PartialEq, Eq)]
pub struct DiffEntry {
    pub ty: ResourceType,
    pub op: Op,
}

pub open spec fn layout_json(k: LayoutKind) -> Seq<u8> {
    match k {
        LayoutKind::U8 => ascii("\"U8\""@),
        LayoutKind::U64 => ascii("\"U64\""@),
        LayoutKind::U128 => ascii("\"U128\""@),
        LayoutKind::Bool => ascii("\"Bool\""@),
        LayoutKind::Address => ascii("\"Address\""@),
    }
}

pub open spec fn value_json(v: Value) -> Seq<u8> {
    match v {
        Value::U8(n) => decimal(n as nat),
        Value::U64(n) => decimal(n as nat),
        Value::U128(n) => decimal(n as nat),
        Value::Bool(b) => if b {
            ascii("true"@)
        } else {
            ascii("false"@)
        },
        Value::Address(a) => json_string(render_hex(a@)),
    }
}

pub open spec fn ty_json(t: ResourceType) -> Seq<u8> {
    ascii("{\"address\":"@) + json_string(render_hex(t.address@)) + ascii(",\"module\":"@)
        + json_string(t.module@) + ascii(",\"name\":"@) + json_string(t.name@) + ascii(
        ",\"ty_args\":["@,
    ) + joined(t.ty_args@.map_values(|a: Vec<u8>| json_string(a@))) + ascii("],\"layout\":["@)
        + joined(t.layout@.map_values(|k: LayoutKind| layout_json(k))) + ascii("]}"@)
}

pub open spec fn op_json(op: Op) -> Seq<u8> {
    match op {
        Op::SetValue(vs) => ascii("{\"type\":\"SetValue\",\"values\":["@) + joined(
            vs@.map_values(|v: Value| value_json(v)),
        ) + ascii("]}"@),
        Op::Delete => ascii("{\"type\":\"Delete\"}"@),
    }
}

/// The canonical JSON of a diff entry: `ty` before `op`, no whitespace.
pub open spec fn entry_json(e: DiffEntry) -> Seq<u8> {
    ascii("{\"ty\":"@) + ty_json(e.ty) + ascii(",\"op\":"@) + op_json(e.op) + ascii("}"@)
}

/// The canonical JSON of a state diff: an array of its entries in order.
pub open spec fn diff_json(es: Seq<DiffEntry>) -> Seq<u8> {
    seq![91u8] + joined(es.map_values(|e: DiffEntry| entry_json(e))) + seq![93u8]
}

fn push_decimal(out: &mut Vec<u8>, n: u128)
    ensures
        final(out)@ == old(out)@ + decimal(n as nat),
    decreases n,
{
    if n < 10 {
        out.push((n as u8) + 48);
    } else {
        push_decimal(out, n / 10);
        out.push(((n % 10) as u8) + 48);
    }
}

fn push_escaped(out: &mut Vec<u8>, s: &[u8])
    ensures
        final(out)@ == old(out)@ + escaped(s@),
{
    let ghost start = out@;
    let mut i: usize = 0;
    assert(s@.subrange(0, 0) =~= Seq::<u8>::empty());
    while i < s.len()
        invariant
            i <= s@.len(),
            out@ == start + escaped(s@.subrange(0, i as int)),
        decreases s@.len() - i,
    {
        let b = s[i];
        let ghost before = out@;
        if b == 34 || b == 92 {
            out.push(92u8);
            out.push(b);
        } else if b < 32 {
            out.push(92u8);
            out.push(117u8);
            out.push(48u8);
            out.push(48u8);
            out.push(if b / 16 < 10 { b / 16 + 48 } else { b / 16 + 87 });
            out.push(if b % 16 < 10 { b % 16 + 48 } else { b % 16 + 87 });
        } else {
            out.push(b);
        }
        assert(out@ =~= before + escaped_byte(b));
        assert(s@.subrange(0, i + 1).drop_last() =~= s@.subrange(0, i as int));
        i = i + 1;
        assert(out@ =~= start + escaped(s@.subrange(0, i as int)));
    }
    assert(s@.subrange(0, i as int) =~= s@);
}

fn push_json_string(out: &mut Vec<u8>, s: &[u8])
    ensures
        final(out)@ == old(out)@ + json_string(s@),
{
    let ghost start = out@;
    out.push(34u8);
    push_escaped(out, s);
    out.push(34u8);
    assert(out@ =~= start + json_string(s@));
}

fn push_value(out: &mut Vec<u8>, v: &Value)
    ensures
        final(out)@ == old(out)@ + value_json(*v),
{
    match v {
        Value::U8(n) => push_decimal(out, *n as u128),
        Value::U64(n) => push_decimal(out, *n as u128),
        Value::U128(n) => push_decimal(out, *n),
        Value::Bool(b) => {
            proof {
                reveal_strlit("true");
                reveal_strlit("false");
            }
            if *b {
                push_ascii(out, "true");
            } else {
                push_ascii(out, "false");
            }
        },
        Value::Address(a) => {
            let text = a.to_hex_literal();
            push_json_string(out, text.as_slice());
        },
    }
}

fn push_layout(out: &mut Vec<u8>, k: LayoutKind)
    ensures
        final(out)@ == old(out)@ + layout_json(k),
{
    proof {
        reveal_strlit("\"U8\"");
        reveal_strlit("\"U64\"");
        reveal_strlit("\"U128\"");
        reveal_strlit("\"Bool\"");
        reveal_strlit("\"Address\"");
    }
    match k {
        LayoutKind::U8 => push_ascii(out, "\"U8\""),
        LayoutKind::U64 => push_ascii(out, "\"U64\""),
        LayoutKind::U128 => push_ascii(out, "\"U128\""),
        LayoutKind::Bool => push_ascii(out, "\"Bool\""),
        LayoutKind::Address => push_ascii(out, "\"Address\""),
    }
}

proof fn lemma_joined_push(items: Seq<Seq<u8>>, x: Seq<u8>)
    ensures
        joined(items.push(x)) == if items.len() == 0 {
            x
        } else {
            joined(items) + seq![44u8] + x
        },
{
    assert(items.push(x).drop_last() =~= items);
}

fn push_ty_args(out: &mut Vec<u8>, xs: &Vec<Vec<u8>>)
    ensures
        final(out)@ == old(out)@ + joined(xs@.map_values(|x: Vec<u8>| json_string(x@))),
{
    let ghost start = out@;
    let ghost items = xs@.map_values(|x: Vec<u8>| json_string(x@));
    let mut i: usize = 0;
    assert(items.subrange(0, 0) =~= Seq::<Seq<u8>>::empty());
    while i < xs.len()
        invariant
            i <= xs@.len(),
            items == xs@.map_values(|x: Vec<u8>| json_string(x@)),
            out@ == start + joined(items.subrange(0, i as int)),
        decreases xs@.len() - i,
    {
        let ghost before = out@;
        if i > 0 {
            out.push(44u8);
        }
        push_json_string(out, xs[i].as_slice());
        proof {
            lemma_joined_push(items.subrange(0, i as int), items[i as int]);
            assert(items.subrange(0, i + 1) =~= items.subrange(0, i as int).push(items[i as int]));
        }
        i = i + 1;
    }
    assert(items.subrange(0, i as int) =~= items);
}

fn push_layouts(out: &mut Vec<u8>, xs: &Vec<LayoutKind>)
    ensures
        final(out)@ == old(out)@ + joined(xs@.map_values(|x: LayoutKind| layout_json(x))),
{
    let ghost start = out@;
    let ghost items = xs@.map_values(|x: LayoutKind| layout_json(x));
    let mut i: usize = 0;
    assert(items.subrange(0, 0) =~= Seq::<Seq<u8>>::empty());
    while i < xs.len()
        invariant
            i <= xs@.len(),
            items == xs@.map_values(|x: LayoutKind| layout_json(x)),
            out@ == start + joined(items.subrange(0, i as int)),
        decreases xs@.len() - i,
    {
        let ghost before = out@;
        if i > 0 {
            out.push(44u8);
        }
        push_layout(out, xs[i]);
        proof {
            lemma_joined_push(items.subrange(0, i as int), items[i as int]);
            assert(items.subrange(0, i + 1) =~= items.subrange(0, i as int).push(items[i as int]));
        }
        i = i + 1;
    }
    assert(items.subrange(0, i as int) =~= items);
}

fn push_values(out: &mut Vec<u8>, xs: &Vec<Value>)
    ensures
        final(out)@ == old(out)@ + joined(xs@.map_values(|x: Value| value_json(x))),
{
    let ghost start = out@;
    let ghost items = xs@.map_values(|x: Value| value_json(x));
    let mut i: usize = 0;
    assert(items.subrange(0, 0) =~= Seq::<Seq<u8>>::empty());
    while i < xs.len()
        invariant
            i <= xs@.len(),
            items == xs@.map_values(|x: Value| value_json(x)),
            out@ == start + joined(items.subrange(0, i as int)),
        decreases xs@.len() - i,
    {
        let ghost before = out@;
        if i > 0 {
            out.push(44u8);
        }
        push_value(out, &xs[i]);
        proof {
            lemma_joined_push(items.subrange(0, i as int), items[i as int]);
            assert(items.subrange(0, i + 1) =~= items.subrange(0, i as int).push(items[i as int]));
        }
        i = i + 1;
    }
    assert(items.subrange(0, i as int) =~= items);
}

fn push_ty(out: &mut Vec<u8>, t: &ResourceType)
    ensures
        final(out)@ == old(out)@ + ty_json(*t),
{
    let ghost start = out@;
    proof {
        reveal_strlit("{\"address\":");
        reveal_strlit(",\"module\":");
        reveal_strlit(",\"name\":");
        reveal_strlit(",\"ty_args\":[");
        reveal_strlit("],\"layout\":[");
        reveal_strlit("]}");
    }
    push_ascii(out, "{\"address\":");
    let address = t.address.to_hex_literal();
    push_json_string(out, address.as_slice());
    push_ascii(out, ",\"module\":");
    push_json_string(out, t.module.as_slice());
    push_ascii(out, ",\"name\":");
    push_json_string(out, t.name.as_slice());
    push_ascii(out, ",\"ty_args\":[");
    push_ty_args(out, &t.ty_args);
    push_ascii(out, "],\"layout\":[");
    push_layouts(out, &t.layout);
    push_ascii(out, "]}");
    assert(out@ =~= start + ty_json(*t));
}

fn push_op(out: &mut Vec<u8>, op: &Op)
    ensures
        final(out)@ == old(out)@ + op_json(*op),
{
    let ghost start = out@;
    proof {
        reveal_strlit("{\"type\":\"SetValue\",\"values\":[");
        reveal_strlit("]}");
        reveal_strlit("{\"type\":\"Delete\"}");
    }
    match op {
        Op::SetValue(vs) => {
            push_ascii(out, "{\"type\":\"SetValue\",\"values\":[");
            push_values(out, vs);
            push_ascii(out, "]}");
            assert(out@ =~= start + op_json(*op));
        },
        Op::Delete => {
            push_ascii(out, "{\"type\":\"Delete\"}");
        },
    }
}

fn push_entry(out: &mut Vec<u8>, e: &DiffEntry)
    ensures
        final(out)@ == old(out)@ + entry_json(*e),
{
    let ghost start = out@;
    proof {
        reveal_strlit("{\"ty\":");
        reveal_strlit(",\"op\":");
        reveal_strlit("}");
    }
    push_ascii(out, "{\"ty\":");
    push_ty(out, &e.ty);
    push_ascii(out, ",\"op\":");
    push_op(out, &e.op);
    push_ascii(out, "}");
    assert(out@ =~= start + entry_json(*e));
}

fn push_entries(out: &mut Vec<u8>, xs: &Vec<DiffEntry>)
    ensures
        final(out)@ == old(out)@ + joined(xs@.map_values(|x: DiffEntry| entry_json(x))),
{
    let ghost start = out@;
    let ghost items = xs@.map_values(|x: DiffEntry| entry_json(x));
    let mut i: usize = 0;
    assert(items.subrange(0, 0) =~= Seq::<Seq<u8>>::empty());
    while i < xs.len()
        invariant
            i <= xs@.len(),
            items == xs@.map_values(|x: DiffEntry| entry_json(x)),
            out@ == start + joined(items.subrange(0, i as int)),
        decreases xs@.len() - i,
    {
        let ghost before = out@;
        if i > 0 {
            out.push(44u8);
        }
        push_entry(out, &xs[i]);
        proof {
            lemma_joined_push(items.subrange(0, i as int), items[i as int]);
            assert(items.subrange(0, i + 1) =~= items.subrange(0, i as int).push(items[i as int]));
        }
        i = i + 1;
    }
    assert(items.subrange(0, i as int) =~= items);
}

impl ResourceType {
    /// The type in its canonical JSON form.
    pub fn to_json(&self) -> (r: Vec<u8>)
        ensures
            r@ == ty_json(*self),
    {
        let mut out: Vec<u8> = Vec::new();
        push_ty(&mut out, self);
        assert(out@ =~= ty_json(*self));
        out
    }
}

impl DiffEntry {
    /// The entry in its canonical JSON form.
    pub fn to_json(&self) -> (r: Vec<u8>)
        ensures
            r@ == entry_json(*self),
    {
        let mut out: Vec<u8> = Vec::new();
        push_entry(&mut out, self);
        assert(out@ =~= entry_json(*self));
        out
    }
}

/// A state diff in its canonical JSON form.
pub fn diff_to_json(entries: &Vec<DiffEntry>) -> (r: Vec<u8>)
    ensures
        r@ == diff_json(entries@),
{
    let mut out: Vec<u8> = vec![91u8];
    push_entries(&mut out, entries);
    out.push(93u8);
    assert(out@ =~= diff_json(entries@));
    out
}

} // verus!
