//! Executor bindings: the attribute map that identifies which
//! workload instance exercises authority at a hop.
//!
//! A binding is built incrementally with ordered key insertion and
//! last-write-wins on duplicate keys.  On the wire an entry is a
//! two-element CBOR array or a JSON object `{"name":...,"value":...}`,
//! and a binding is an array of entries in insertion order.

use vstd::prelude::*;
use vstd::utf8::encode_utf8;
use crate::cbor;
use crate::cbor::{fits_u64, lemma_concat_split, lemma_fits_u64_pow256, lemma_subrange_within};
use crate::json;
use crate::text::str_eq;

verus! {

/// One attribute of an executor binding.
#[derive(Debug, Clone, PartialEq)]
pub struct BindingEntry {
    pub name: String,
    pub value: String,
}

pub ghost struct BindingEntryV {
    pub name: Seq<char>,
    pub value: Seq<char>,
}

impl View for BindingEntry {
    type V = BindingEntryV;

    open spec fn view(&self) -> BindingEntryV {
        BindingEntryV { name: self.name@, value: self.value@ }
    }
}

/// A mapping from attribute name to string value, e.g. `federation`,
/// `namespace`, `service`.
#[derive(Debug, Clone, PartialEq)]
pub struct ExecutorBinding {
    pub entries: Vec<BindingEntry>,
}

/// Element-wise view of a sequence of entries.
pub open spec fn entries_view(es: Seq<BindingEntry>) -> Seq<BindingEntryV> {
    es.map_values(|e: BindingEntry| e@)
}

impl View for ExecutorBinding {
    type V = Seq<BindingEntryV>;

    open spec fn view(&self) -> Seq<BindingEntryV> {
        entries_view(self.entries@)
    }
}

/// Index of the first entry named `n`, or `es.len()` if there is none.
pub open spec fn spec_bind_index(es: Seq<BindingEntryV>, n: Seq<char>) -> int
    decreases es.len(),
{
    if es.len() == 0 {
        0
    } else if es[0].name == n {
        0
    } else {
        1 + spec_bind_index(es.drop_first(), n)
    }
}

/// Insert with last-write-wins: replace the value of an existing
/// entry in place, else append a new entry.
pub open spec fn spec_bind_insert(es: Seq<BindingEntryV>, n: Seq<char>, v: Seq<char>) -> Seq<
    BindingEntryV,
> {
    let i = spec_bind_index(es, n);
    if i < es.len() {
        es.update(i, BindingEntryV { name: n, value: v })
    } else {
        es.push(BindingEntryV { name: n, value: v })
    }
}

/// The value bound to `n`, if any.
pub open spec fn spec_bind_lookup(es: Seq<BindingEntryV>, n: Seq<char>) -> Option<Seq<char>> {
    let i = spec_bind_index(es, n);
    if i < es.len() {
        Some(es[i].value)
    } else {
        None
    }
}

proof fn lemma_bind_index_at(es: Seq<BindingEntryV>, n: Seq<char>, j: int)
    requires
        0 <= j <= es.len(),
        forall|k: int| 0 <= k < j ==> es[k].name != n,
        j == es.len() || es[j].name == n,
    ensures
        spec_bind_index(es, n) == j,
    decreases j,
{
    if es.len() == 0 {
    } else if es[0].name == n {
        assert(j == 0);
    } else {
        assert(j >= 1);
        let t = es.drop_first();
        assert forall|k: int| 0 <= k < j - 1 implies t[k].name != n by {
            assert(t[k] == es[k + 1]);
        }
        if j < es.len() {
            assert(t[j - 1] == es[j]);
        }
        lemma_bind_index_at(t, n, j - 1);
    }
}

impl ExecutorBinding {
    /// An empty binding.
    pub fn new() -> (r: Self)
        ensures
            r@ == Seq::<BindingEntryV>::empty(),
    {
        let r = ExecutorBinding { entries: Vec::new() };
        proof {
            assert(r@ =~= Seq::<BindingEntryV>::empty());
        }
        r
    }

    /// Bind `name` to `value`, replacing an earlier value for the
    /// same name and keeping insertion order otherwise.
    pub fn with(self, name: &str, value: &str) -> (r: Self)
        ensures
            r@ == spec_bind_insert(self@, name@, value@),
    {
        let ghost es = entries_view(self.entries@);
        let mut entries = self.entries;
        proof {
            assert(es == self@);
            assert(es == entries_view(entries@));
        }
        let n = entries.len();
        let mut t: usize = 0;
        while t < n
            invariant
                0 <= t <= n,
                n == entries@.len(),
                es == self@,
                es == entries_view(entries@),
                forall|k: int| 0 <= k < t ==> es[k].name != name@,
            decreases n - t,
        {
            if str_eq(entries[t].name.as_str(), name) {
                proof {
                    assert(es[t as int].name == name@);
                    lemma_bind_index_at(es, name@, t as int);
                }
                let nm = entries[t].name.clone();
                entries.set(
                    t,
                    BindingEntry { name: nm, value: value.to_owned() },
                );
                let r = ExecutorBinding { entries };
                proof {
                    assert(r@ =~= spec_bind_insert(es, name@, value@));
                    assert(spec_bind_insert(es, name@, value@) == spec_bind_insert(
                        self@,
                        name@,
                        value@,
                    ));
                    assert(r@ == spec_bind_insert(self@, name@, value@));
                }
                return r;
            }
            proof {
                assert(es[t as int].name != name@);
            }
            t += 1;
        }
        proof {
            lemma_bind_index_at(es, name@, n as int);
        }
        entries.push(BindingEntry { name: name.to_owned(), value: value.to_owned() });
        let r = ExecutorBinding { entries };
        proof {
            assert(r@ =~= spec_bind_insert(es, name@, value@));
        }
        return r;
    }

    /// The value bound to `name`, if any.
    pub fn get(&self, name: &str) -> (r: Option<&String>)
        ensures
            match r {
                Some(v) => spec_bind_lookup(self@, name@) == Some(v@),
                None => spec_bind_lookup(self@, name@) is None,
            },
    {
        let n = self.entries.len();
        let mut t: usize = 0;
        while t < n
            invariant
                0 <= t <= n,
                n == self.entries@.len(),
                forall|k: int| 0 <= k < t ==> self@[k].name != name@,
            decreases n - t,
        {
            if str_eq(self.entries[t].name.as_str(), name) {
                proof {
                    assert(self@[t as int].name == name@);
                    lemma_bind_index_at(self@, name@, t as int);
                }
                return Some(&self.entries[t].value);
            }
            proof {
                assert(self@[t as int].name != name@);
            }
            t += 1;
        }
        proof {
            lemma_bind_index_at(self@, name@, n as int);
        }
        None
    }
}

// ---------------------------------------------------------------------------
// CBOR codec
// ---------------------------------------------------------------------------

pub open spec fn bentry_fits(e: BindingEntryV) -> bool {
    fits_u64(encode_utf8(e.name).len()) && fits_u64(encode_utf8(e.value).len())
}

pub open spec fn binding_fits(es: Seq<BindingEntryV>) -> bool {
    fits_u64(es.len()) && forall|m: int| 0 <= m < es.len() ==> bentry_fits(#[trigger] es[m])
}

pub open spec fn spec_cbor_bentry(e: BindingEntryV) -> Seq<u8> {
    cbor::spec_enc_array_header(2) + cbor::spec_enc_text(e.name) + cbor::spec_enc_text(e.value)
}

pub open spec fn spec_parse_cbor_bentry(b: Seq<u8>, i: int) -> Option<(BindingEntryV, int)> {
    match cbor::spec_parse_array_header(b, i) {
        Some((c, j)) => if c == 2 {
            match cbor::spec_parse_text(b, j) {
                Some((nm, j2)) => match cbor::spec_parse_text(b, j2) {
                    Some((vl, j3)) => Some((BindingEntryV { name: nm, value: vl }, j3)),
                    None => None,
                },
                None => None,
            }
        } else {
            None
        },
        None => None,
    }
}

pub proof fn lemma_parse_cbor_bentry_of_enc(b: Seq<u8>, i: int, e: BindingEntryV)
    requires
        bentry_fits(e),
        0 <= i,
        i + spec_cbor_bentry(e).len() <= b.len(),
        b.subrange(i, i + spec_cbor_bentry(e).len()) == spec_cbor_bentry(e),
    ensures
        spec_parse_cbor_bentry(b, i) == Some((e, i + spec_cbor_bentry(e).len())),
{
    let h = cbor::spec_enc_array_header(2);
    let t1 = cbor::spec_enc_text(e.name);
    let t2 = cbor::spec_enc_text(e.value);
    assert(spec_cbor_bentry(e) =~= h + (t1 + t2));
    lemma_concat_split(b, i, h, t1 + t2);
    cbor::lemma_pow256_values();
    cbor::lemma_parse_array_header_of_enc(b, i, 2);
    lemma_concat_split(b, i + h.len(), t1, t2);
    lemma_fits_u64_pow256(encode_utf8(e.name).len());
    lemma_fits_u64_pow256(encode_utf8(e.value).len());
    cbor::lemma_parse_text_of_enc(b, i + h.len(), e.name);
    cbor::lemma_parse_text_of_enc(b, i + h.len() + t1.len(), e.value);
    assert(BindingEntryV { name: e.name, value: e.value } == e);
}

pub fn push_cbor_bentry(out: &mut Vec<u8>, e: &BindingEntry)
    ensures
        final(out)@ =~= old(out)@ + spec_cbor_bentry(e@),
{
    cbor::push_array_header(out, 2);
    cbor::push_text(out, e.name.as_str());
    cbor::push_text(out, e.value.as_str());
    assert(out@ =~= old(out)@ + spec_cbor_bentry(e@));
}

pub fn parse_cbor_bentry(b: &[u8], i: usize) -> (r: Option<(BindingEntry, usize)>)
    ensures
        match r {
            Some((e, j)) => {
                &&& spec_parse_cbor_bentry(b@, i as int) == Some((e@, j as int))
                &&& i < j <= b@.len()
            },
            None => spec_parse_cbor_bentry(b@, i as int) is None,
        },
{
    let (c, j) = match cbor::parse_array_header(b, i) {
        Some(x) => x,
        None => {
            return None;
        },
    };
    if c != 2 {
        return None;
    }
    let (nm, j2) = match cbor::parse_text(b, j) {
        Some(x) => x,
        None => {
            return None;
        },
    };
    let (vl, j3) = match cbor::parse_text(b, j2) {
        Some(x) => x,
        None => {
            return None;
        },
    };
    Some((BindingEntry { name: nm, value: vl }, j3))
}

pub open spec fn spec_cbor_bentries(es: Seq<BindingEntryV>) -> Seq<u8>
    decreases es.len(),
{
    if es.len() == 0 {
        Seq::empty()
    } else {
        spec_cbor_bentry(es[0]) + spec_cbor_bentries(es.drop_first())
    }
}

/// A whole binding: array header then the entries.
pub open spec fn spec_cbor_binding(es: Seq<BindingEntryV>) -> Seq<u8> {
    cbor::spec_enc_array_header(es.len()) + spec_cbor_bentries(es)
}

pub open spec fn spec_parse_cbor_bentries(b: Seq<u8>, i: int, count: nat) -> Option<
    (Seq<BindingEntryV>, int),
>
    decreases count,
{
    if count == 0 {
        Some((Seq::empty(), i))
    } else {
        match spec_parse_cbor_bentry(b, i) {
            Some((e, j)) => match spec_parse_cbor_bentries(b, j, (count - 1) as nat) {
                Some((es, j2)) => Some((seq![e] + es, j2)),
                None => None,
            },
            None => None,
        }
    }
}

pub open spec fn spec_parse_cbor_binding(b: Seq<u8>, i: int) -> Option<(Seq<BindingEntryV>, int)> {
    match cbor::spec_parse_array_header(b, i) {
        Some((c, j)) => spec_parse_cbor_bentries(b, j, c),
        None => None,
    }
}

pub proof fn lemma_enc_cbor_bentries_app(a: Seq<BindingEntryV>, c: Seq<BindingEntryV>)
    ensures
        spec_cbor_bentries(a + c) =~= spec_cbor_bentries(a) + spec_cbor_bentries(c),
    decreases a.len(),
{
    if a.len() == 0 {
        assert(a + c =~= c);
        assert(spec_cbor_bentries(a) =~= Seq::<u8>::empty());
    } else {
        assert((a + c).drop_first() =~= a.drop_first() + c);
        assert((a + c)[0] == a[0]);
        lemma_enc_cbor_bentries_app(a.drop_first(), c);
    }
}

pub proof fn lemma_parse_cbor_bentries_of_enc(b: Seq<u8>, i: int, es: Seq<BindingEntryV>)
    requires
        binding_fits(es),
        0 <= i,
        i + spec_cbor_bentries(es).len() <= b.len(),
        b.subrange(i, i + spec_cbor_bentries(es).len()) == spec_cbor_bentries(es),
    ensures
        spec_parse_cbor_bentries(b, i, es.len()) == Some((es, i + spec_cbor_bentries(es).len())),
    decreases es.len(),
{
    if es.len() == 0 {
        assert(b.subrange(i, i) =~= Seq::<u8>::empty());
    } else {
        let e0 = spec_cbor_bentry(es[0]);
        let rest = spec_cbor_bentries(es.drop_first());
        assert(spec_cbor_bentries(es) == e0 + rest);
        lemma_concat_split(b, i, e0, rest);
        lemma_parse_cbor_bentry_of_enc(b, i, es[0]);
        assert forall|m: int| 0 <= m < es.drop_first().len() implies bentry_fits(
            #[trigger] es.drop_first()[m],
        ) by {
            assert(es.drop_first()[m] == es[m + 1]);
        }
        lemma_parse_cbor_bentries_of_enc(b, i + e0.len(), es.drop_first());
        assert(seq![es[0]] + es.drop_first() =~= es);
    }
}

pub proof fn lemma_parse_cbor_binding_of_enc(b: Seq<u8>, i: int, es: Seq<BindingEntryV>)
    requires
        binding_fits(es),
        0 <= i,
        i + spec_cbor_binding(es).len() <= b.len(),
        b.subrange(i, i + spec_cbor_binding(es).len()) == spec_cbor_binding(es),
    ensures
        spec_parse_cbor_binding(b, i) == Some((es, i + spec_cbor_binding(es).len())),
{
    let h = cbor::spec_enc_array_header(es.len());
    lemma_concat_split(b, i, h, spec_cbor_bentries(es));
    lemma_fits_u64_pow256(es.len());
    cbor::lemma_parse_array_header_of_enc(b, i, es.len());
    lemma_parse_cbor_bentries_of_enc(b, i + h.len(), es);
}

pub fn push_cbor_binding(out: &mut Vec<u8>, eb: &ExecutorBinding)
    ensures
        final(out)@ =~= old(out)@ + spec_cbor_binding(eb@),
{
    cbor::push_array_header(out, eb.entries.len() as u64);
    let n = eb.entries.len();
    let mut t: usize = 0;
    while t < n
        invariant
            0 <= t <= n,
            n == eb.entries@.len(),
            out@ =~= old(out)@ + cbor::spec_enc_array_header(eb@.len()) + spec_cbor_bentries(
                eb@.take(t as int),
            ),
        decreases n - t,
    {
        push_cbor_bentry(out, &eb.entries[t]);
        proof {
            let dv = eb@;
            assert(dv.take(t + 1) =~= dv.take(t as int) + seq![dv[t as int]]);
            lemma_enc_cbor_bentries_app(dv.take(t as int), seq![dv[t as int]]);
            let single = seq![dv[t as int]];
            assert(single.drop_first() =~= Seq::<BindingEntryV>::empty());
            assert(spec_cbor_bentries(single.drop_first()) =~= Seq::<u8>::empty());
            assert(spec_cbor_bentries(single) =~= spec_cbor_bentry(dv[t as int]));
            assert(dv[t as int] == eb.entries@[t as int]@);
            assert(out@ =~= old(out)@ + cbor::spec_enc_array_header(dv.len())
                + spec_cbor_bentries(dv.take(t + 1)));
        }
        t += 1;
    }
    proof {
        assert(eb@.take(n as int) =~= eb@);
        assert(out@ =~= old(out)@ + spec_cbor_binding(eb@));
    }
}

pub fn parse_cbor_binding(b: &[u8], i: usize) -> (r: Option<(ExecutorBinding, usize)>)
    ensures
        match r {
            Some((eb, j)) => {
                &&& spec_parse_cbor_binding(b@, i as int) == Some((eb@, j as int))
                &&& i < j <= b@.len()
            },
            None => spec_parse_cbor_binding(b@, i as int) is None,
        },
{
    let n = b.len();
    let (count, mut cur) = match cbor::parse_array_header(b, i) {
        Some(x) => x,
        None => {
            return None;
        },
    };
    let mut acc: Vec<BindingEntry> = Vec::new();
    let mut t: u64 = 0;
    proof {
        assert(entries_view(acc@) =~= Seq::<BindingEntryV>::empty());
        assert forall|es: Seq<BindingEntryV>, j2: int|
            spec_parse_cbor_bentries(b@, cur as int, count as nat) == Some(
                (es, j2),
            ) implies spec_parse_cbor_binding(b@, i as int) == Some(
            (entries_view(acc@) + es, j2),
        ) by {
            assert(entries_view(acc@) + es =~= es);
        }
    }
    while t < count
        invariant
            0 <= t <= count,
            i < cur <= n <= usize::MAX,
            n == b@.len(),
            forall|es: Seq<BindingEntryV>, j2: int|
                spec_parse_cbor_bentries(b@, cur as int, (count - t) as nat) == Some((es, j2))
                    ==> spec_parse_cbor_binding(b@, i as int) == Some(
                    (entries_view(acc@) + es, j2),
                ),
            spec_parse_cbor_bentries(b@, cur as int, (count - t) as nat) is None
                ==> spec_parse_cbor_binding(b@, i as int) is None,
        decreases count - t,
    {
        let (e, j) = match parse_cbor_bentry(b, cur) {
            Some(x) => x,
            None => {
                return None;
            },
        };
        let ghost pre = entries_view(acc@);
        proof {
            let ev = e@;
            assert forall|es: Seq<BindingEntryV>, j2: int|
                spec_parse_cbor_bentries(b@, j as int, (count - (t + 1)) as nat) == Some(
                    (es, j2),
                ) implies spec_parse_cbor_binding(b@, i as int) == Some(
                (pre.push(ev) + es, j2),
            ) by {
                assert(spec_parse_cbor_bentries(b@, cur as int, (count - t) as nat) == Some(
                    (seq![ev] + es, j2),
                ));
                assert(pre + (seq![ev] + es) =~= pre.push(ev) + es);
            }
        }
        acc.push(e);
        cur = j;
        t += 1;
        proof {
            assert(entries_view(acc@) =~= pre.push(acc@.last()@));
        }
    }
    let r = ExecutorBinding { entries: acc };
    proof {
        assert(r@ + Seq::<BindingEntryV>::empty() =~= r@);
    }
    Some((r, cur))
}

// ---------------------------------------------------------------------------
// JSON codec
// ---------------------------------------------------------------------------

pub open spec fn spec_json_bentry(e: BindingEntryV) -> Seq<u8> {
    encode_utf8("{\"name\":"@) + json::spec_jstring(e.name) + encode_utf8(",\"value\":"@)
        + json::spec_jstring(e.value) + seq![0x7du8]
}

pub open spec fn spec_parse_json_bentry(b: Seq<u8>, i: int) -> Option<(BindingEntryV, int)> {
    match json::spec_expect(b, i, encode_utf8("{\"name\":"@)) {
        Some(j) => match json::spec_parse_jstring(b, j) {
            Some((nm, j2)) => match json::spec_expect(b, j2, encode_utf8(",\"value\":"@)) {
                Some(j3) => match json::spec_parse_jstring(b, j3) {
                    Some((vl, j4)) => match json::spec_expect(b, j4, seq![0x7du8]) {
                        Some(j5) => Some((BindingEntryV { name: nm, value: vl }, j5)),
                        None => None,
                    },
                    None => None,
                },
                None => None,
            },
            None => None,
        },
        None => None,
    }
}

pub proof fn lemma_parse_json_bentry_of_enc(b: Seq<u8>, i: int, e: BindingEntryV)
    requires
        0 <= i,
        i + spec_json_bentry(e).len() <= b.len(),
        b.subrange(i, i + spec_json_bentry(e).len()) == spec_json_bentry(e),
    ensures
        spec_parse_json_bentry(b, i) == Some((e, i + spec_json_bentry(e).len())),
{
    let k1 = encode_utf8("{\"name\":"@);
    let s1 = json::spec_jstring(e.name);
    let k2 = encode_utf8(",\"value\":"@);
    let s2 = json::spec_jstring(e.value);
    let k3 = seq![0x7du8];
    assert(spec_json_bentry(e) =~= k1 + (s1 + (k2 + (s2 + k3))));
    lemma_concat_split(b, i, k1, s1 + (k2 + (s2 + k3)));
    let p1 = i + k1.len();
    lemma_concat_split(b, p1, s1, k2 + (s2 + k3));
    let p2 = p1 + s1.len();
    lemma_concat_split(b, p2, k2, s2 + k3);
    let p3 = p2 + k2.len();
    lemma_concat_split(b, p3, s2, k3);
    let p4 = p3 + s2.len();
    json::lemma_parse_jstring_of_enc(b, p1, e.name);
    json::lemma_parse_jstring_of_enc(b, p3, e.value);
    assert(BindingEntryV { name: e.name, value: e.value } == e);
}

pub fn push_json_bentry(out: &mut Vec<u8>, e: &BindingEntry)
    ensures
        final(out)@ =~= old(out)@ + spec_json_bentry(e@),
{
    out.extend_from_slice(("{\"name\":").as_bytes());
    json::push_jstring(out, e.name.as_str());
    out.extend_from_slice((",\"value\":").as_bytes());
    json::push_jstring(out, e.value.as_str());
    out.push(0x7d);
    assert(out@ =~= old(out)@ + spec_json_bentry(e@));
}

pub fn parse_json_bentry(b: &[u8], i: usize) -> (r: Option<(BindingEntry, usize)>)
    ensures
        match r {
            Some((e, j)) => {
                &&& spec_parse_json_bentry(b@, i as int) == Some((e@, j as int))
                &&& i <= j <= b@.len()
            },
            None => spec_parse_json_bentry(b@, i as int) is None,
        },
{
    let j = match json::expect_lit(b, i, ("{\"name\":").as_bytes()) {
        Some(x) => x,
        None => {
            return None;
        },
    };
    let (nm, j2) = match json::parse_jstring(b, j) {
        Some(x) => x,
        None => {
            return None;
        },
    };
    let j3 = match json::expect_lit(b, j2, (",\"value\":").as_bytes()) {
        Some(x) => x,
        None => {
            return None;
        },
    };
    let (vl, j4) = match json::parse_jstring(b, j3) {
        Some(x) => x,
        None => {
            return None;
        },
    };
    let j5 = match json::expect_lit(b, j4, ("}").as_bytes()) {
        Some(x) => x,
        None => {
            proof {
                assert(encode_utf8("}"@) =~= seq![0x7du8]) by {
                    reveal_strlit("}");
                    vstd::utf8::is_ascii_chars_encode_utf8("}"@);
                }
            }
            return None;
        },
    };
    proof {
        assert(encode_utf8("}"@) =~= seq![0x7du8]) by {
            reveal_strlit("}");
            vstd::utf8::is_ascii_chars_encode_utf8("}"@);
        }
    }
    Some((BindingEntry { name: nm, value: vl }, j5))
}

/// The comma-separated entries of a JSON binding array.
pub open spec fn spec_json_bentry_items(es: Seq<BindingEntryV>) -> Seq<u8>
    decreases es.len(),
{
    if es.len() == 0 {
        Seq::empty()
    } else if es.len() == 1 {
        spec_json_bentry(es[0])
    } else {
        spec_json_bentry(es[0]) + seq![0x2cu8] + spec_json_bentry_items(es.drop_first())
    }
}

pub open spec fn spec_json_binding(es: Seq<BindingEntryV>) -> Seq<u8> {
    seq![0x5bu8] + spec_json_bentry_items(es) + seq![0x5du8]
}

pub proof fn lemma_json_bentry_items_push(a: Seq<BindingEntryV>, x: BindingEntryV)
    ensures
        spec_json_bentry_items(a.push(x)) =~= if a.len() == 0 {
            spec_json_bentry(x)
        } else {
            spec_json_bentry_items(a) + seq![0x2cu8] + spec_json_bentry(x)
        },
    decreases a.len(),
{
    let p = a.push(x);
    if a.len() == 0 {
        assert(p.len() == 1);
        assert(p[0] == x);
    } else {
        assert(p.len() >= 2);
        assert(p[0] == a[0]);
        assert(p.drop_first() =~= a.drop_first().push(x));
        lemma_json_bentry_items_push(a.drop_first(), x);
        if a.len() == 1 {
            assert(spec_json_bentry_items(a) =~= spec_json_bentry(a[0]));
        }
    }
}

pub open spec fn spec_parse_json_bentry_items(b: Seq<u8>, i: int) -> Option<
    (Seq<BindingEntryV>, int),
>
    decreases b.len() - i,
{
    match spec_parse_json_bentry(b, i) {
        Some((e, j)) => if i < j && j < b.len() {
            if b[j] == 0x2c {
                match spec_parse_json_bentry_items(b, j + 1) {
                    Some((es, j2)) => Some((seq![e] + es, j2)),
                    None => None,
                }
            } else if b[j] == 0x5d {
                Some((seq![e], j + 1))
            } else {
                None
            }
        } else {
            None
        },
        None => None,
    }
}

pub open spec fn spec_parse_json_binding(b: Seq<u8>, i: int) -> Option<(Seq<BindingEntryV>, int)> {
    if 0 <= i && i + 1 < b.len() && b[i] == 0x5b && b[i + 1] == 0x5d {
        Some((Seq::empty(), i + 2))
    } else if 0 <= i < b.len() && b[i] == 0x5b {
        spec_parse_json_bentry_items(b, i + 1)
    } else {
        None
    }
}

pub proof fn lemma_parse_json_bentry_items_of_enc(b: Seq<u8>, i: int, es: Seq<BindingEntryV>)
    requires
        es.len() >= 1,
        0 <= i,
        i + spec_json_bentry_items(es).len() + 1 <= b.len(),
        b.subrange(i, i + spec_json_bentry_items(es).len() + 1) == spec_json_bentry_items(es)
            + seq![0x5du8],
    ensures
        spec_parse_json_bentry_items(b, i) == Some(
            (es, i + spec_json_bentry_items(es).len() + 1),
        ),
    decreases es.len(),
{
    let tok = spec_json_bentry(es[0]);
    if es.len() == 1 {
        lemma_concat_split(b, i, tok, seq![0x5du8]);
        lemma_parse_json_bentry_of_enc(b, i, es[0]);
        let j = i + tok.len();
        assert(b[j] == b.subrange(j, j + 1)[0]);
        assert(b[j] == 0x5d);
        assert(seq![es[0]] =~= es);
    } else {
        let rest = spec_json_bentry_items(es.drop_first());
        assert(spec_json_bentry_items(es) == tok + seq![0x2cu8] + rest);
        let tail = seq![0x2cu8] + rest + seq![0x5du8];
        assert(spec_json_bentry_items(es) + seq![0x5du8] =~= tok + tail);
        lemma_concat_split(b, i, tok, tail);
        lemma_parse_json_bentry_of_enc(b, i, es[0]);
        let j = i + tok.len();
        assert(b[j] == b.subrange(j, j + tail.len())[0]);
        assert(b[j] == 0x2c);
        lemma_subrange_within(b, j, tail.len() as int, 1, tail.len() as int);
        assert(tail.subrange(1, tail.len() as int) =~= rest + seq![0x5du8]);
        assert(b.subrange(j + 1, j + 1 + rest.len() + 1) =~= rest + seq![0x5du8]);
        lemma_parse_json_bentry_items_of_enc(b, j + 1, es.drop_first());
        assert(seq![es[0]] + es.drop_first() =~= es);
    }
}

pub proof fn lemma_parse_json_binding_of_enc(b: Seq<u8>, i: int, es: Seq<BindingEntryV>)
    requires
        0 <= i,
        i + spec_json_binding(es).len() <= b.len(),
        b.subrange(i, i + spec_json_binding(es).len()) == spec_json_binding(es),
    ensures
        spec_parse_json_binding(b, i) == Some((es, i + spec_json_binding(es).len())),
{
    let w = spec_json_binding(es);
    assert(b[i] == w[0]);
    if es.len() == 0 {
        assert(w =~= seq![0x5bu8, 0x5du8]);
        assert(b[i + 1] == w[1]);
    } else {
        assert(b[i + 1] == w[1]);
        assert(w[1] == spec_json_bentry_items(es)[0]);
        assert(spec_json_bentry_items(es)[0] == spec_json_bentry(es[0])[0]);
        assert(spec_json_bentry(es[0])[0] == encode_utf8("{\"name\":"@)[0]) by {
            lemma_key_name_bytes();
        }
        assert(b[i + 1] != 0x5d) by {
            lemma_key_name_bytes();
        }
        lemma_subrange_within(b, i, w.len() as int, 1, w.len() as int);
        assert(w.subrange(1, w.len() as int) =~= spec_json_bentry_items(es) + seq![0x5du8]);
        assert(b.subrange(i + 1, i + 1 + spec_json_bentry_items(es).len() + 1)
            =~= spec_json_bentry_items(es) + seq![0x5du8]);
        lemma_parse_json_bentry_items_of_enc(b, i + 1, es);
    }
}

/// The first byte of a binding-entry object is `{`.
pub proof fn lemma_key_name_bytes()
    ensures
        encode_utf8("{\"name\":"@).len() == 8,
        encode_utf8("{\"name\":"@)[0] == 0x7b,
{
    reveal_strlit("{\"name\":");
    vstd::utf8::is_ascii_chars_encode_utf8("{\"name\":"@);
}

pub fn push_json_binding(out: &mut Vec<u8>, eb: &ExecutorBinding)
    ensures
        final(out)@ =~= old(out)@ + spec_json_binding(eb@),
{
    out.push(0x5b);
    let n = eb.entries.len();
    let mut t: usize = 0;
    while t < n
        invariant
            0 <= t <= n,
            n == eb.entries@.len(),
            out@ =~= old(out)@ + seq![0x5bu8] + spec_json_bentry_items(eb@.take(t as int)),
        decreases n - t,
    {
        if t > 0 {
            out.push(0x2c);
        }
        push_json_bentry(out, &eb.entries[t]);
        proof {
            let dv = eb@;
            assert(dv.take(t + 1) =~= dv.take(t as int).push(dv[t as int]));
            lemma_json_bentry_items_push(dv.take(t as int), dv[t as int]);
            assert(dv[t as int] == eb.entries@[t as int]@);
            assert(out@ =~= old(out)@ + seq![0x5bu8] + spec_json_bentry_items(dv.take(t + 1)));
        }
        t += 1;
    }
    out.push(0x5d);
    proof {
        assert(eb@.take(n as int) =~= eb@);
        assert(out@ =~= old(out)@ + spec_json_binding(eb@));
    }
}

pub fn parse_json_binding(b: &[u8], i: usize) -> (r: Option<(ExecutorBinding, usize)>)
    ensures
        match r {
            Some((eb, j)) => {
                &&& spec_parse_json_binding(b@, i as int) == Some((eb@, j as int))
                &&& i < j <= b@.len()
            },
            None => spec_parse_json_binding(b@, i as int) is None,
        },
{
    let n = b.len();
    if i >= n || *vstd::slice::slice_index_get(b, i) != 0x5b {
        return None;
    }
    if i + 1 < n && *vstd::slice::slice_index_get(b, i + 1) == 0x5d {
        let empty = ExecutorBinding { entries: Vec::new() };
        proof {
            assert(empty@ =~= Seq::<BindingEntryV>::empty());
        }
        return Some((empty, i + 2));
    }
    let mut acc: Vec<BindingEntry> = Vec::new();
    let mut cur: usize = i + 1;
    proof {
        assert(entries_view(acc@) =~= Seq::<BindingEntryV>::empty());
        assert forall|es: Seq<BindingEntryV>, j2: int|
            spec_parse_json_bentry_items(b@, cur as int) == Some(
                (es, j2),
            ) implies spec_parse_json_binding(b@, i as int) == Some(
            (entries_view(acc@) + es, j2),
        ) by {
            assert(entries_view(acc@) + es =~= es);
        }
    }
    loop
        invariant
            i < cur <= n <= usize::MAX,
            n == b@.len(),
            forall|es: Seq<BindingEntryV>, j2: int|
                spec_parse_json_bentry_items(b@, cur as int) == Some((es, j2))
                    ==> spec_parse_json_binding(b@, i as int) == Some(
                    (entries_view(acc@) + es, j2),
                ),
            spec_parse_json_bentry_items(b@, cur as int) is None ==> spec_parse_json_binding(
                b@,
                i as int,
            ) is None,
        decreases n - cur,
    {
        let (e, j) = match parse_json_bentry(b, cur) {
            Some(x) => x,
            None => {
                return None;
            },
        };
        if j <= cur || j >= n {
            return None;
        }
        let sep = *vstd::slice::slice_index_get(b, j);
        let ghost pre = entries_view(acc@);
        if sep == 0x5d {
            proof {
                assert(spec_parse_json_bentry_items(b@, cur as int) == Some((seq![e@], j + 1)));
                assert(pre + seq![e@] =~= pre.push(e@));
            }
            acc.push(e);
            proof {
                assert(entries_view(acc@) =~= pre.push(acc@.last()@));
            }
            return Some((ExecutorBinding { entries: acc }, j + 1));
        }
        if sep != 0x2c {
            return None;
        }
        proof {
            assert forall|es: Seq<BindingEntryV>, j2: int|
                spec_parse_json_bentry_items(b@, j + 1) == Some(
                    (es, j2),
                ) implies spec_parse_json_binding(b@, i as int) == Some(
                (pre.push(e@) + es, j2),
            ) by {
                assert(spec_parse_json_bentry_items(b@, cur as int) == Some((seq![e@] + es, j2)));
                assert(pre + (seq![e@] + es) =~= pre.push(e@) + es);
            }
        }
        acc.push(e);
        cur = j + 1;
        proof {
            assert(entries_view(acc@) =~= pre.push(acc@.last()@));
        }
    }
}

/// A binding entry object is valid UTF-8.
pub proof fn lemma_json_bentry_valid_utf8(e: BindingEntryV)
    ensures
        vstd::utf8::valid_utf8(spec_json_bentry(e)),
{
    vstd::utf8::encode_utf8_valid_utf8("{\"name\":"@);
    vstd::utf8::encode_utf8_valid_utf8(",\"value\":"@);
    json::lemma_jstring_valid_utf8(e.name);
    json::lemma_jstring_valid_utf8(e.value);
    json::lemma_ascii_valid_utf8(seq![0x7du8]);
    json::lemma_empty_valid_utf8();
    json::lemma_valid_concat8(
        encode_utf8("{\"name\":"@),
        json::spec_jstring(e.name),
        encode_utf8(",\"value\":"@),
        json::spec_jstring(e.value),
        seq![0x7du8],
        Seq::empty(),
        Seq::empty(),
        Seq::empty(),
    );
    assert(spec_json_bentry(e) =~= encode_utf8("{\"name\":"@) + json::spec_jstring(e.name)
        + encode_utf8(",\"value\":"@) + json::spec_jstring(e.value) + seq![0x7du8]);
}

/// A whole binding array is valid UTF-8.
pub proof fn lemma_json_binding_valid_utf8(es: Seq<BindingEntryV>)
    ensures
        vstd::utf8::valid_utf8(spec_json_binding(es)),
{
    lemma_json_bentry_items_valid_utf8(es);
    json::lemma_ascii_valid_utf8(seq![0x5bu8]);
    json::lemma_ascii_valid_utf8(seq![0x5du8]);
    vstd::utf8::valid_utf8_concat(seq![0x5bu8], spec_json_bentry_items(es));
    vstd::utf8::valid_utf8_concat(seq![0x5bu8] + spec_json_bentry_items(es), seq![0x5du8]);
}

proof fn lemma_json_bentry_items_valid_utf8(es: Seq<BindingEntryV>)
    ensures
        vstd::utf8::valid_utf8(spec_json_bentry_items(es)),
    decreases es.len(),
{
    if es.len() == 0 {
        assert(spec_json_bentry_items(es) =~= Seq::<u8>::empty());
        json::lemma_empty_valid_utf8();
    } else if es.len() == 1 {
        lemma_json_bentry_valid_utf8(es[0]);
    } else {
        lemma_json_bentry_valid_utf8(es[0]);
        lemma_json_bentry_items_valid_utf8(es.drop_first());
        json::lemma_ascii_valid_utf8(seq![0x2cu8]);
        vstd::utf8::valid_utf8_concat(spec_json_bentry(es[0]), seq![0x2cu8]);
        vstd::utf8::valid_utf8_concat(
            spec_json_bentry(es[0]) + seq![0x2cu8],
            spec_json_bentry_items(es.drop_first()),
        );
    }
}

} // verus!
