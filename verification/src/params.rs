//! Ordered request parameters: string keys mapped to values, kept sorted in
//! byte-wise lexicographic key order with no duplicate keys, as a signed
//! request's deterministic serialization demands.
use vstd::prelude::*;

verus! {

use vstd::utf8::{valid_utf8, encode_utf8_valid_utf8};
use vstd::string::{StringSliceAdditionalSpecFns, StrSliceExecFns};
use crate::encode::{lex_lt, lemma_lex_trichotomy, bytes_lt, bytes_eq, pct_of, pct_decode, is_ascii_bytes, lemma_pct_decode_concat, lemma_pct_decode_unescaped_head, lemma_pct_round_trip};
use crate::json::{JsonVal, json_of_val, json_escape, lemma_json_escape_valid_utf8, lemma_json_of_val_valid_utf8};

/// Adjacent keys strictly grow, so keys are sorted and unique.
pub open spec fn keys_sorted<V>(s: Seq<(Seq<u8>, V)>) -> bool {
    forall|i: int| 0 <= i && i + 1 < s.len() ==> lex_lt(#[trigger] s[i].0, s[i + 1].0)
}

/// Every key is a valid UTF-8 byte sequence.
pub open spec fn keys_valid_utf8<V>(s: Seq<(Seq<u8>, V)>) -> bool {
    forall|i: int| 0 <= i < s.len() ==> valid_utf8(#[trigger] s[i].0)
}

/// Every value is a valid UTF-8 byte sequence.
pub open spec fn values_valid_utf8(s: Seq<(Seq<u8>, Seq<u8>)>) -> bool {
    forall|i: int| 0 <= i < s.len() ==> valid_utf8(#[trigger] s[i].1)
}

/// Insertion keeps every value valid UTF-8 when the new value is.
pub proof fn lemma_insert_pair_values_valid(s: Seq<(Seq<u8>, Seq<u8>)>, k: Seq<u8>, v: Seq<u8>)
    requires
        values_valid_utf8(s),
        valid_utf8(v),
    ensures
        values_valid_utf8(insert_pair(s, k, v)),
    decreases s.len(),
{
    let r = insert_pair(s, k, v);
    if s.len() == 0 {
    } else if lex_lt(k, s[0].0) {
        assert forall|i: int| 0 <= i < r.len() implies valid_utf8(#[trigger] r[i].1) by {
            if i > 0 {
                assert(r[i] == s[i - 1]);
            }
        }
    } else if k == s[0].0 {
        assert forall|i: int| 0 <= i < r.len() implies valid_utf8(#[trigger] r[i].1) by {
            if i > 0 {
                assert(r[i] == s[i]);
            }
        }
    } else {
        lemma_insert_pair_values_valid(s.drop_first(), k, v);
        let t = insert_pair(s.drop_first(), k, v);
        assert forall|i: int| 0 <= i < r.len() implies valid_utf8(#[trigger] r[i].1) by {
            if i > 0 {
                assert(r[i] == t[i - 1]);
            }
        }
    }
}

/// Insertion into a key-sorted pair sequence: an equal key is replaced, a new
/// key takes its ordered place.
pub open spec fn insert_pair<V>(s: Seq<(Seq<u8>, V)>, k: Seq<u8>, v: V) -> Seq<(Seq<u8>, V)>
    decreases s.len(),
{
    if s.len() == 0 {
        seq![(k, v)]
    } else if lex_lt(k, s[0].0) {
        seq![(k, v)] + s
    } else if k == s[0].0 {
        seq![(k, v)] + s.drop_first()
    } else {
        seq![s[0]] + insert_pair(s.drop_first(), k, v)
    }
}

/// Insertion keeps the keys sorted.
pub proof fn lemma_insert_pair_sorted<V>(s: Seq<(Seq<u8>, V)>, k: Seq<u8>, v: V)
    requires
        keys_sorted(s),
    ensures
        keys_sorted(insert_pair(s, k, v)),
    decreases s.len(),
{
    let r = insert_pair(s, k, v);
    if s.len() == 0 {
    } else if lex_lt(k, s[0].0) {
        assert forall|i: int| 0 <= i && i + 1 < r.len() implies lex_lt(
            #[trigger] r[i].0,
            r[i + 1].0,
        ) by {
            if i > 0 {
                assert(r[i] == s[i - 1] && r[i + 1] == s[i]);
            }
        }
    } else if k == s[0].0 {
        assert forall|i: int| 0 <= i && i + 1 < r.len() implies lex_lt(
            #[trigger] r[i].0,
            r[i + 1].0,
        ) by {
            if i == 0 {
                assert(lex_lt(s[0].0, s[1].0));
            } else {
                assert(r[i] == s[i] && r[i + 1] == s[i + 1]);
            }
        }
    } else {
        lemma_lex_trichotomy(k, s[0].0);
        assert(lex_lt(s[0].0, k));
        assert(keys_sorted(s.drop_first()));
        lemma_insert_pair_sorted(s.drop_first(), k, v);
        let t = insert_pair(s.drop_first(), k, v);
        assert(t.len() > 0);
        assert(lex_lt(s[0].0, t[0].0)) by {
            if s.len() == 1 {
                assert(t[0] == (k, v));
            } else if lex_lt(k, s[1].0) {
                assert(t[0] == (k, v));
            } else if k == s[1].0 {
                assert(t[0] == (k, v));
            } else {
                assert(t[0] == s[1]);
                assert(lex_lt(s[0].0, s[1].0));
            }
        }
        assert forall|i: int| 0 <= i && i + 1 < r.len() implies lex_lt(
            #[trigger] r[i].0,
            r[i + 1].0,
        ) by {
            if i == 0 {
                assert(r[0] == s[0] && r[1] == t[0]);
            } else {
                assert(r[i] == t[i - 1] && r[i + 1] == t[i]);
            }
        }
    }
}

/// Insertion keeps every key valid UTF-8 when the new key is.
pub proof fn lemma_insert_pair_valid_utf8<V>(s: Seq<(Seq<u8>, V)>, k: Seq<u8>, v: V)
    requires
        keys_valid_utf8(s),
        valid_utf8(k),
    ensures
        keys_valid_utf8(insert_pair(s, k, v)),
    decreases s.len(),
{
    let r = insert_pair(s, k, v);
    if s.len() == 0 {
    } else if lex_lt(k, s[0].0) {
        assert forall|i: int| 0 <= i < r.len() implies valid_utf8(#[trigger] r[i].0) by {
            if i > 0 {
                assert(r[i] == s[i - 1]);
            }
        }
    } else if k == s[0].0 {
        assert forall|i: int| 0 <= i < r.len() implies valid_utf8(#[trigger] r[i].0) by {
            if i > 0 {
                assert(r[i] == s[i]);
            }
        }
    } else {
        lemma_insert_pair_valid_utf8(s.drop_first(), k, v);
        let t = insert_pair(s.drop_first(), k, v);
        assert forall|i: int| 0 <= i < r.len() implies valid_utf8(#[trigger] r[i].0) by {
            if i > 0 {
                assert(r[i] == t[i - 1]);
            }
        }
    }
}

/// Where the scan of an insertion stops, the recursive insertion lands.
pub proof fn lemma_insert_pair_at<V>(s: Seq<(Seq<u8>, V)>, k: Seq<u8>, v: V, i: int)
    requires
        0 <= i <= s.len(),
        forall|j: int| 0 <= j < i ==> lex_lt(#[trigger] s[j].0, k),
        i < s.len() ==> !lex_lt(s[i].0, k),
    ensures
        insert_pair(s, k, v) == if i < s.len() && s[i].0 == k {
            s.update(i, (k, v))
        } else {
            s.take(i) + seq![(k, v)] + s.skip(i)
        },
    decreases i,
{
    if i == 0 {
        if s.len() == 0 {
            assert(insert_pair(s, k, v) =~= s.take(0) + seq![(k, v)] + s.skip(0));
        } else {
            lemma_lex_trichotomy(k, s[0].0);
            if s[0].0 == k {
                assert(insert_pair(s, k, v) =~= s.update(0, (k, v)));
            } else {
                assert(lex_lt(k, s[0].0));
                assert(insert_pair(s, k, v) =~= s.take(0) + seq![(k, v)] + s.skip(0));
            }
        }
    } else {
        assert(lex_lt(s[0].0, k));
        lemma_lex_trichotomy(k, s[0].0);
        let rest = s.drop_first();
        assert(forall|j: int| 0 <= j < i - 1 ==> lex_lt(#[trigger] rest[j].0, k));
        lemma_insert_pair_at(rest, k, v, i - 1);
        if i < s.len() && s[i].0 == k {
            assert(rest[i - 1].0 == k);
            assert(insert_pair(s, k, v) =~= seq![s[0]] + rest.update(i - 1, (k, v)));
            assert(seq![s[0]] + rest.update(i - 1, (k, v)) =~= s.update(i, (k, v)));
        } else {
            assert(insert_pair(s, k, v) =~= seq![s[0]] + (rest.take(i - 1) + seq![(k, v)]
                + rest.skip(i - 1)));
            assert(seq![s[0]] + (rest.take(i - 1) + seq![(k, v)] + rest.skip(i - 1)) =~= s.take(i)
                + seq![(k, v)] + s.skip(i));
        }
    }
}

/// GET parameters: string keys to string values, both held as UTF-8 bytes.
pub struct QueryParams {
    pub(crate) entries: Vec<(Vec<u8>, Vec<u8>)>,
}

/// POST parameters: string keys to JSON values.
pub struct BodyParams {
    pub(crate) entries: Vec<(Vec<u8>, JsonVal)>,
}

/// The abstract content of a query parameter vector.
pub open spec fn qview(s: Seq<(Vec<u8>, Vec<u8>)>) -> Seq<(Seq<u8>, Seq<u8>)> {
    Seq::new(s.len(), |i: int| (s[i].0@, s[i].1@))
}

/// The abstract content of a body parameter vector: each value as its
/// canonical serialized bytes.
pub open spec fn bview(s: Seq<(Vec<u8>, JsonVal)>) -> Seq<(Seq<u8>, Seq<u8>)> {
    Seq::new(s.len(), |i: int| (s[i].0@, json_of_val(s[i].1)))
}

impl View for QueryParams {
    type V = Seq<(Seq<u8>, Seq<u8>)>;

    closed spec fn view(&self) -> Seq<(Seq<u8>, Seq<u8>)> {
        qview(self.entries@)
    }
}

impl View for BodyParams {
    type V = Seq<(Seq<u8>, Seq<u8>)>;

    closed spec fn view(&self) -> Seq<(Seq<u8>, Seq<u8>)> {
        bview(self.entries@)
    }
}

impl QueryParams {
    /// Keys strictly sorted, hence unique.
    pub open spec fn wf(&self) -> bool {
        keys_sorted(self@)
    }

    /// An empty parameter map.
    pub fn new() -> (r: QueryParams)
        ensures
            r@ == Seq::<(Seq<u8>, Seq<u8>)>::empty(),
            r.wf(),
    {
        let r = QueryParams { entries: Vec::new() };
        proof {
            assert(r@ =~= Seq::<(Seq<u8>, Seq<u8>)>::empty());
        }
        r
    }

    pub fn len(&self) -> (r: usize)
        ensures
            r == self@.len(),
    {
        self.entries.len()
    }

    pub fn is_empty(&self) -> (r: bool)
        ensures
            r == (self@.len() == 0),
    {
        self.entries.len() == 0
    }

    /// Puts `value` under `key`, replacing an equal key, keeping key order.
    pub fn insert(&mut self, key: &str, value: &str)
        requires
            old(self).wf(),
        ensures
            final(self).wf(),
            final(self)@ == insert_pair(old(self)@, key.spec_bytes(), value.spec_bytes()),
    {
        let kb = key.as_bytes_vec();
        let vb = value.as_bytes_vec();
        let mut i: usize = 0;
        while i < self.entries.len() && bytes_lt(self.entries[i].0.as_slice(), kb.as_slice())
            invariant
                i <= self.entries.len(),
                kb@ == key.spec_bytes(),
                forall|j: int| 0 <= j < i ==> lex_lt(#[trigger] self.entries@[j].0@, kb@),
            decreases self.entries.len() - i,
        {
            i = i + 1;
        }
        proof {
            assert(forall|j: int| 0 <= j < i ==> lex_lt(#[trigger] old(self)@[j].0, kb@));
            lemma_insert_pair_at(old(self)@, kb@, vb@, i as int);
            lemma_insert_pair_sorted(old(self)@, kb@, vb@);
        }
        if i < self.entries.len() && bytes_eq(self.entries[i].0.as_slice(), kb.as_slice()) {
            self.entries[i] = (kb, vb);
            proof {
                assert(self@ =~= old(self)@.update(i as int, (key.spec_bytes(), value.spec_bytes())));
            }
        } else {
            self.entries.insert(i, (kb, vb));
            proof {
                assert(self@ =~= old(self)@.take(i as int) + seq![
                    (key.spec_bytes(), value.spec_bytes()),
                ] + old(self)@.skip(i as int));
            }
        }
    }
}

impl BodyParams {
    /// Keys strictly sorted; keys and serialized values valid UTF-8.
    pub open spec fn wf(&self) -> bool {
        keys_sorted(self@) && keys_valid_utf8(self@) && values_valid_utf8(self@)
    }

    /// An empty parameter map.
    pub fn new() -> (r: BodyParams)
        ensures
            r@ == Seq::<(Seq<u8>, Seq<u8>)>::empty(),
            r.wf(),
    {
        let r = BodyParams { entries: Vec::new() };
        proof {
            assert(r@ =~= Seq::<(Seq<u8>, Seq<u8>)>::empty());
        }
        r
    }

    pub fn len(&self) -> (r: usize)
        ensures
            r == self@.len(),
    {
        self.entries.len()
    }

    /// Puts `value` under `key`, replacing an equal key, keeping key order.
    pub fn insert(&mut self, key: &str, value: JsonVal)
        requires
            old(self).wf(),
        ensures
            final(self).wf(),
            final(self)@ == insert_pair(old(self)@, key.spec_bytes(), json_of_val(value)),
    {
        let kb = key.as_bytes_vec();
        let ghost vg = json_of_val(value);
        proof {
            encode_utf8_valid_utf8(key@);
            lemma_json_of_val_valid_utf8(value);
        }
        let mut i: usize = 0;
        while i < self.entries.len() && bytes_lt(self.entries[i].0.as_slice(), kb.as_slice())
            invariant
                i <= self.entries.len(),
                kb@ == key.spec_bytes(),
                forall|j: int| 0 <= j < i ==> lex_lt(#[trigger] self.entries@[j].0@, kb@),
            decreases self.entries.len() - i,
        {
            i = i + 1;
        }
        proof {
            assert(forall|j: int| 0 <= j < i ==> lex_lt(#[trigger] old(self)@[j].0, kb@));
            lemma_insert_pair_at(old(self)@, kb@, vg, i as int);
            lemma_insert_pair_sorted(old(self)@, kb@, vg);
            lemma_insert_pair_valid_utf8(old(self)@, kb@, vg);
            lemma_insert_pair_values_valid(old(self)@, kb@, vg);
        }
        if i < self.entries.len() && bytes_eq(self.entries[i].0.as_slice(), kb.as_slice()) {
            self.entries[i] = (kb, value);
            proof {
                assert(self@ =~= old(self)@.update(i as int, (key.spec_bytes(), vg)));
            }
        } else {
            self.entries.insert(i, (kb, value));
            proof {
                assert(self@ =~= old(self)@.take(i as int) + seq![(key.spec_bytes(), vg)] + old(
                    self,
                )@.skip(i as int));
            }
        }
    }
}

/// The unescaped query string: `key=value` pairs joined by `&`, in key order.
pub open spec fn query_of(s: Seq<(Seq<u8>, Seq<u8>)>) -> Seq<u8>
    decreases s.len(),
{
    if s.len() == 0 {
        Seq::empty()
    } else if s.len() == 1 {
        s[0].0 + seq![0x3du8] + s[0].1
    } else {
        s[0].0 + seq![0x3du8] + s[0].1 + seq![0x26u8] + query_of(s.drop_first())
    }
}

/// The percent-encoded query string for the transport URL: the same pairs in
/// the same order, each key and value percent encoded.
pub open spec fn enc_query_of(s: Seq<(Seq<u8>, Seq<u8>)>) -> Seq<u8>
    decreases s.len(),
{
    if s.len() == 0 {
        Seq::empty()
    } else if s.len() == 1 {
        pct_of(s[0].0) + seq![0x3du8] + pct_of(s[0].1)
    } else {
        pct_of(s[0].0) + seq![0x3du8] + pct_of(s[0].1) + seq![0x26u8] + enc_query_of(
            s.drop_first(),
        )
    }
}

proof fn lemma_query_of_push(s: Seq<(Seq<u8>, Seq<u8>)>, p: (Seq<u8>, Seq<u8>))
    ensures
        query_of(s.push(p)) == if s.len() == 0 {
            p.0 + seq![0x3du8] + p.1
        } else {
            query_of(s) + seq![0x26u8] + (p.0 + seq![0x3du8] + p.1)
        },
    decreases s.len(),
{
    if s.len() == 0 {
        assert(s.push(p)[0] == p);
        assert(query_of(s.push(p)) =~= p.0 + seq![0x3du8] + p.1);
    } else {
        assert(s.push(p)[0] == s[0]);
        assert(s.push(p).drop_first() =~= s.drop_first().push(p));
        lemma_query_of_push(s.drop_first(), p);
        assert(query_of(s.push(p)) =~= query_of(s) + seq![0x26u8] + (p.0 + seq![0x3du8] + p.1));
    }
}

proof fn lemma_enc_query_of_push(s: Seq<(Seq<u8>, Seq<u8>)>, p: (Seq<u8>, Seq<u8>))
    ensures
        enc_query_of(s.push(p)) == if s.len() == 0 {
            pct_of(p.0) + seq![0x3du8] + pct_of(p.1)
        } else {
            enc_query_of(s) + seq![0x26u8] + (pct_of(p.0) + seq![0x3du8] + pct_of(p.1))
        },
    decreases s.len(),
{
    if s.len() == 0 {
        assert(s.push(p)[0] == p);
        assert(enc_query_of(s.push(p)) =~= pct_of(p.0) + seq![0x3du8] + pct_of(p.1));
    } else {
        assert(s.push(p)[0] == s[0]);
        assert(s.push(p).drop_first() =~= s.drop_first().push(p));
        lemma_enc_query_of_push(s.drop_first(), p);
        assert(enc_query_of(s.push(p)) =~= enc_query_of(s) + seq![0x26u8] + (pct_of(p.0)
            + seq![0x3du8] + pct_of(p.1)));
    }
}

/// Appends the bytes of `piece` to `out`.
pub fn append_bytes(out: &mut Vec<u8>, piece: &[u8])
    ensures
        final(out)@ == old(out)@ + piece@,
{
    let mut j: usize = 0;
    proof {
        assert(out@ =~= old(out)@ + piece@.take(0));
    }
    while j < piece.len()
        invariant
            j <= piece@.len(),
            out@ == old(out)@ + piece@.take(j as int),
        decreases piece@.len() - j,
    {
        let x = piece[j];
        out.push(x);
        proof {
            assert(piece@.take(j + 1) =~= piece@.take(j as int).push(x));
            assert(out@ =~= old(out)@ + piece@.take(j + 1));
        }
        j = j + 1;
    }
    proof {
        assert(piece@.take(piece@.len() as int) =~= piece@);
    }
}

/// Appends the UTF-8 bytes of a string to `out`.
pub fn append_str(out: &mut Vec<u8>, s: &str)
    ensures
        final(out)@ == old(out)@ + s.spec_bytes(),
{
    append_bytes(out, s.as_bytes());
}

/// Builds the unescaped query string of a parameter map: the byte sequence
/// whose hash enters the request signature.
pub fn query_string(params: &QueryParams) -> (r: Vec<u8>)
    ensures
        r@ == query_of(params@),
{
    let mut r: Vec<u8> = Vec::new();
    let mut i: usize = 0;
    proof {
        assert(params@.take(0) =~= Seq::<(Seq<u8>, Seq<u8>)>::empty());
    }
    while i < params.entries.len()
        invariant
            i <= params@.len(),
            params@.len() == params.entries@.len(),
            r@ == query_of(params@.take(i as int)),
        decreases params@.len() - i,
    {
        if i > 0 {
            r.push(0x26);
        }
        let ghost mid = r@;
        append_bytes(&mut r, params.entries[i].0.as_slice());
        r.push(0x3d);
        append_bytes(&mut r, params.entries[i].1.as_slice());
        proof {
            let p = params@[i as int];
            assert(r@ =~= mid + (p.0 + seq![0x3du8] + p.1));
            lemma_query_of_push(params@.take(i as int), p);
            assert(params@.take(i + 1) =~= params@.take(i as int).push(p));
            assert(r@ =~= query_of(params@.take(i + 1)));
        }
        i = i + 1;
    }
    proof {
        assert(params@.take(params@.len() as int) =~= params@);
    }
    r
}

/// Builds the percent-encoded query string of a parameter map: the byte
/// sequence that goes into the transport URL.
pub fn encoded_query_string(params: &QueryParams) -> (r: Vec<u8>)
    ensures
        r@ == enc_query_of(params@),
        is_ascii_bytes(r@),
{
    let mut r: Vec<u8> = Vec::new();
    let mut i: usize = 0;
    proof {
        assert(params@.take(0) =~= Seq::<(Seq<u8>, Seq<u8>)>::empty());
    }
    while i < params.entries.len()
        invariant
            i <= params@.len(),
            params@.len() == params.entries@.len(),
            r@ == enc_query_of(params@.take(i as int)),
            is_ascii_bytes(r@),
        decreases params@.len() - i,
    {
        if i > 0 {
            r.push(0x26);
        }
        let ghost mid = r@;
        let ek = crate::encode::pct_encode(params.entries[i].0.as_slice());
        append_bytes(&mut r, ek.as_slice());
        r.push(0x3d);
        let ev = crate::encode::pct_encode(params.entries[i].1.as_slice());
        append_bytes(&mut r, ev.as_slice());
        proof {
            let p = params@[i as int];
            assert(r@ =~= mid + (pct_of(p.0) + seq![0x3du8] + pct_of(p.1)));
            lemma_enc_query_of_push(params@.take(i as int), p);
            assert(params@.take(i + 1) =~= params@.take(i as int).push(p));
            assert(r@ =~= enc_query_of(params@.take(i + 1)));
        }
        i = i + 1;
    }
    proof {
        assert(params@.take(params@.len() as int) =~= params@);
    }
    r
}

/// One serialized member of a JSON object: `"key":value` with the key escaped.
pub open spec fn json_member_of(p: (Seq<u8>, Seq<u8>)) -> Seq<u8> {
    seq![0x22u8] + json_escape(p.0) + seq![0x22u8, 0x3au8] + p.1
}

/// The serialized members of a JSON object, comma joined, in key order.
pub open spec fn json_members_of(s: Seq<(Seq<u8>, Seq<u8>)>) -> Seq<u8>
    decreases s.len(),
{
    if s.len() == 0 {
        Seq::empty()
    } else if s.len() == 1 {
        json_member_of(s[0])
    } else {
        json_member_of(s[0]) + seq![0x2cu8] + json_members_of(s.drop_first())
    }
}

/// The canonical JSON serialization of a body parameter map: one object,
/// members in key order. These bytes are both hashed and sent.
pub open spec fn json_of_body(s: Seq<(Seq<u8>, Seq<u8>)>) -> Seq<u8> {
    seq![0x7bu8] + json_members_of(s) + seq![0x7du8]
}

proof fn lemma_json_members_of_push(s: Seq<(Seq<u8>, Seq<u8>)>, p: (Seq<u8>, Seq<u8>))
    ensures
        json_members_of(s.push(p)) == if s.len() == 0 {
            json_member_of(p)
        } else {
            json_members_of(s) + seq![0x2cu8] + json_member_of(p)
        },
    decreases s.len(),
{
    if s.len() == 0 {
        assert(s.push(p)[0] == p);
        assert(json_members_of(s.push(p)) =~= json_member_of(p));
    } else {
        assert(s.push(p)[0] == s[0]);
        assert(s.push(p).drop_first() =~= s.drop_first().push(p));
        lemma_json_members_of_push(s.drop_first(), p);
        assert(json_members_of(s.push(p)) =~= json_members_of(s) + seq![0x2cu8] + json_member_of(
            p,
        ));
    }
}

proof fn lemma_json_member_valid_utf8(p: (Seq<u8>, Seq<u8>))
    requires
        valid_utf8(p.0),
        valid_utf8(p.1),
    ensures
        valid_utf8(json_member_of(p)),
{
    lemma_json_escape_valid_utf8(p.0);
    crate::encode::lemma_ascii_bytes_valid_utf8(seq![0x22u8]);
    crate::encode::lemma_ascii_bytes_valid_utf8(seq![0x22u8, 0x3au8]);
    vstd::utf8::valid_utf8_concat(seq![0x22u8], json_escape(p.0));
    vstd::utf8::valid_utf8_concat(seq![0x22u8] + json_escape(p.0), seq![0x22u8, 0x3au8]);
    vstd::utf8::valid_utf8_concat(
        (seq![0x22u8] + json_escape(p.0)) + seq![0x22u8, 0x3au8],
        p.1,
    );
    assert(json_member_of(p) =~= ((seq![0x22u8] + json_escape(p.0)) + seq![0x22u8, 0x3au8])
        + p.1);
}

proof fn lemma_json_members_valid_utf8(s: Seq<(Seq<u8>, Seq<u8>)>)
    requires
        keys_valid_utf8(s),
        values_valid_utf8(s),
    ensures
        valid_utf8(json_members_of(s)),
    decreases s.len(),
{
    if s.len() == 0 {
    } else if s.len() == 1 {
        lemma_json_member_valid_utf8(s[0]);
    } else {
        lemma_json_member_valid_utf8(s[0]);
        assert(keys_valid_utf8(s.drop_first()) && values_valid_utf8(s.drop_first())) by {
            assert(forall|i: int|
                0 <= i < s.drop_first().len() ==> s.drop_first()[i] == s[i + 1]);
        }
        lemma_json_members_valid_utf8(s.drop_first());
        crate::encode::lemma_ascii_bytes_valid_utf8(seq![0x2cu8]);
        vstd::utf8::valid_utf8_concat(json_member_of(s[0]), seq![0x2cu8]);
        vstd::utf8::valid_utf8_concat(
            json_member_of(s[0]) + seq![0x2cu8],
            json_members_of(s.drop_first()),
        );
        assert(json_members_of(s) =~= (json_member_of(s[0]) + seq![0x2cu8]) + json_members_of(
            s.drop_first(),
        ));
    }
}

/// The serialization of a well-formed body map is valid UTF-8.
pub proof fn lemma_json_of_body_valid_utf8(s: Seq<(Seq<u8>, Seq<u8>)>)
    requires
        keys_valid_utf8(s),
        values_valid_utf8(s),
    ensures
        valid_utf8(json_of_body(s)),
{
    crate::encode::lemma_ascii_bytes_valid_utf8(seq![0x7bu8]);
    crate::encode::lemma_ascii_bytes_valid_utf8(seq![0x7du8]);
    lemma_json_members_valid_utf8(s);
    vstd::utf8::valid_utf8_concat(seq![0x7bu8], json_members_of(s));
    vstd::utf8::valid_utf8_concat(seq![0x7bu8] + json_members_of(s), seq![0x7du8]);
    assert(json_of_body(s) =~= (seq![0x7bu8] + json_members_of(s)) + seq![0x7du8]);
}

/// Serializes a body parameter map to its canonical JSON bytes.
pub fn body_bytes(params: &BodyParams) -> (r: Vec<u8>)
    ensures
        r@ == json_of_body(params@),
{
    let mut r: Vec<u8> = Vec::new();
    r.push(0x7b);
    let mut i: usize = 0;
    proof {
        assert(params@.take(0) =~= Seq::<(Seq<u8>, Seq<u8>)>::empty());
    }
    while i < params.entries.len()
        invariant
            i <= params@.len(),
            params@.len() == params.entries@.len(),
            r@ == seq![0x7bu8] + json_members_of(params@.take(i as int)),
        decreases params@.len() - i,
    {
        if i > 0 {
            r.push(0x2c);
        }
        let ghost mid = r@;
        r.push(0x22);
        let ek = crate::json::json_escape_bytes(params.entries[i].0.as_slice());
        append_bytes(&mut r, ek.as_slice());
        r.push(0x22);
        r.push(0x3a);
        let ev = crate::json::json_val_bytes(&params.entries[i].1);
        append_bytes(&mut r, ev.as_slice());
        proof {
            let p = params@[i as int];
            assert(r@ =~= mid + json_member_of(p));
            lemma_json_members_of_push(params@.take(i as int), p);
            assert(params@.take(i + 1) =~= params@.take(i as int).push(p));
            assert(r@ =~= seq![0x7bu8] + json_members_of(params@.take(i + 1)));
        }
        i = i + 1;
    }
    r.push(0x7d);
    proof {
        assert(params@.take(params@.len() as int) =~= params@);
        assert(r@ =~= json_of_body(params@));
    }
    r
}

/// For any parameters, percent-decoding the transported URL query yields
/// exactly the unescaped signed query string: the two serializations carry
/// the same key/value pairs.
pub proof fn lemma_enc_query_decodes(q: Seq<(Seq<u8>, Seq<u8>)>)
    ensures
        pct_decode(enc_query_of(q)) == query_of(q),
    decreases q.len(),
{
    if q.len() == 0 {
        assert(pct_decode(enc_query_of(q)) =~= query_of(q));
    } else if q.len() == 1 {
        let k = q[0].0;
        let v = q[0].1;
        let t1 = seq![0x3du8] + pct_of(v);
        assert(enc_query_of(q) =~= pct_of(k) + t1);
        lemma_pct_decode_concat(k, t1);
        lemma_pct_decode_unescaped_head(0x3d, pct_of(v));
        lemma_pct_round_trip(v);
        assert(pct_decode(enc_query_of(q)) =~= k + (seq![0x3du8] + v));
        assert(query_of(q) =~= k + (seq![0x3du8] + v));
    } else {
        let k = q[0].0;
        let v = q[0].1;
        let rest = q.drop_first();
        lemma_enc_query_decodes(rest);
        let t2 = seq![0x26u8] + enc_query_of(rest);
        let t1 = seq![0x3du8] + (pct_of(v) + t2);
        assert(enc_query_of(q) =~= pct_of(k) + t1);
        lemma_pct_decode_concat(k, t1);
        lemma_pct_decode_unescaped_head(0x3d, pct_of(v) + t2);
        lemma_pct_decode_concat(v, t2);
        lemma_pct_decode_unescaped_head(0x26, enc_query_of(rest));
        assert(pct_decode(enc_query_of(q)) =~= k + (seq![0x3du8] + (v + (seq![0x26u8]
            + query_of(rest)))));
        assert(query_of(q) =~= k + (seq![0x3du8] + (v + (seq![0x26u8] + query_of(rest)))));
    }
}

} // verus!
