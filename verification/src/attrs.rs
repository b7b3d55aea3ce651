//! The attribute decoder and the generic machinery that record constructors
//! share: scanning a decoded `(key, value)` list for the first unmapped key,
//! looking a key up with last-one-wins semantics, and the order-independence
//! lemmas for valid attribute sets.

use vstd::prelude::*;

use crate::errors::{opt_err_view, ErrV, ParseError};

verus! {

/// One decoded attribute: a key and its (still escaped) value text.
#[derive(Debug, Clone, PartialEq, Eq)]
pub struct Attr {
    pub key: String,
    pub value: String,
}

/// The mathematical value of an [`Attr`].
pub ghost struct AttrV {
    pub key: Seq<char>,
    pub value: Seq<char>,
}

impl View for Attr {
    type V = AttrV;

    open spec fn view(&self) -> AttrV {
        AttrV { key: self.key@, value: self.value@ }
    }
}

/// The views of a decoded attribute list.
pub open spec fn attrs_view(s: Seq<Attr>) -> Seq<AttrV> {
    s.map_values(|a: Attr| a@)
}

/// The ordered `(key, value)` pairs that the attribute decoder yields for a
/// raw attribute substring.  A function of the text alone.
pub uninterp spec fn attrs_of(raw: Seq<char>) -> Seq<AttrV>;

/// Relies on magnesium's `TagAttributeIterator`: it walks a tag's raw
/// attribute text and yields each `key="value"` pair in source order, and it
/// yields nothing for an empty string.
#[verifier::external_body]
pub fn decode_attrs(raw: &str) -> (r: Vec<Attr>)
    ensures
        attrs_view(r@) == attrs_of(raw@),
        raw@.len() == 0 ==> r@.len() == 0,
{
    let mut out = Vec::new();
    for ta in magnesium::TagAttributeIterator::new(raw) {
        out.push(Attr { key: ta.key.to_owned(), value: ta.value.to_owned() });
    }
    out
}

/// The value of the last pair whose key is `key`, if any.
///
/// Record construction is one pass in source order, each key overwriting the
/// previous occurrence, so the last occurrence is the one that sticks.
pub open spec fn last_val(ps: Seq<AttrV>, key: Seq<char>) -> Option<Seq<char>>
    decreases ps.len(),
{
    if ps.len() == 0 {
        None
    } else if ps.last().key == key {
        Some(ps.last().value)
    } else {
        last_val(ps.drop_last(), key)
    }
}

/// Whether some pair has key `key`.
pub open spec fn found(ps: Seq<AttrV>, key: Seq<char>) -> bool {
    last_val(ps, key) is Some
}

/// Whether some pair is exactly `(key, value)`.
pub open spec fn has_pair(ps: Seq<AttrV>, key: Seq<char>, value: Seq<char>) -> bool
    decreases ps.len(),
{
    if ps.len() == 0 {
        false
    } else {
        (ps.last().key == key && ps.last().value == value) || has_pair(ps.drop_last(), key, value)
    }
}

/// The value of the first pair whose key is `key`, if any: the semantics of
/// a direct single-key probe into a tag's attributes.
pub open spec fn first_val(ps: Seq<AttrV>, key: Seq<char>) -> Option<Seq<char>>
    decreases ps.len(),
{
    if ps.len() == 0 {
        None
    } else if ps[0].key == key {
        Some(ps[0].value)
    } else {
        first_val(ps.drop_first(), key)
    }
}

/// A key is present exactly when some pair carries it.
pub proof fn lemma_found_iff(ps: Seq<AttrV>, key: Seq<char>)
    ensures
        found(ps, key) <==> exists|j: int| 0 <= j < ps.len() && ps[j].key == key,
{
    lemma_last_val_some_contains(ps, key);
    match last_val(ps, key) {
        Some(v) => {
            let a = AttrV { key, value: v };
            let j = choose|j: int| 0 <= j < ps.len() && ps[j] == a;
            assert(ps[j].key == key);
        },
        None => {},
    }
}

/// The looked-up value, with a missing key reading as empty text.
pub open spec fn or_empty(v: Option<Seq<char>>) -> Seq<char> {
    match v {
        Some(s) => s,
        None => Seq::empty(),
    }
}

/// The view of an optional owned string.
pub open spec fn opt_view(o: Option<String>) -> Option<Seq<char>> {
    match o {
        Some(s) => Some(s@),
        None => None,
    }
}

/// The views of a list of records.
pub open spec fn seq_view<T: View>(s: Seq<T>) -> Seq<T::V> {
    s.map_values(|t: T| t@)
}

/// The first error that a per-pair checker reports, scanning in source order.
pub open spec fn first_err_by(ps: Seq<AttrV>, f: spec_fn(AttrV) -> Option<ErrV>) -> Option<ErrV>
    decreases ps.len(),
{
    if ps.len() == 0 {
        None
    } else {
        match f(ps[0]) {
            Some(e) => Some(e),
            None => first_err_by(ps.drop_first(), f),
        }
    }
}

/// A scan reports no error exactly when no single pair does.
pub proof fn lemma_first_err_by_none(ps: Seq<AttrV>, f: spec_fn(AttrV) -> Option<ErrV>)
    ensures
        first_err_by(ps, f) is None <==> forall|j: int| 0 <= j < ps.len() ==> f(ps[j]) is None,
    decreases ps.len(),
{
    if ps.len() > 0 {
        lemma_first_err_by_none(ps.drop_first(), f);
        assert forall|j: int| 0 <= j < ps.len() && first_err_by(ps, f) is None implies f(
            ps[j],
        ) is None by {
            if j > 0 {
                assert(ps.drop_first()[j - 1] == ps[j]);
            }
        }
        if forall|j: int| 0 <= j < ps.len() ==> f(ps[j]) is None {
            assert forall|j: int| 0 <= j < ps.drop_first().len() implies f(
                ps.drop_first()[j],
            ) is None by {
                assert(ps.drop_first()[j] == ps[j + 1]);
            }
        }
    }
}

/// A scan with no errors stays error-free under any reordering of the same
/// pairs.
pub proof fn lemma_first_err_by_permutation_none(
    ps1: Seq<AttrV>,
    ps2: Seq<AttrV>,
    f: spec_fn(AttrV) -> Option<ErrV>,
)
    requires
        first_err_by(ps1, f) is None,
        ps1.to_multiset() == ps2.to_multiset(),
    ensures
        first_err_by(ps2, f) is None,
{
    broadcast use vstd::seq_lib::group_to_multiset_ensures;

    lemma_first_err_by_none(ps1, f);
    lemma_first_err_by_none(ps2, f);
    assert forall|j: int| 0 <= j < ps2.len() implies f(ps2[j]) is None by {
        assert(ps2.to_multiset().contains(ps2[j]));
        assert(ps1.contains(ps2[j]));
        let k = choose|k: int| 0 <= k < ps1.len() && ps1[k] == ps2[j];
        assert(f(ps1[k]) is None);
    }
}

/// The checker that every section-opening tag uses: only a `comment`
/// attribute is tolerated there.
pub open spec fn comment_only_checker(kind: Seq<char>) -> spec_fn(AttrV) -> Option<ErrV> {
    |p: AttrV|
        if p.key == "comment"@ {
            None
        } else {
            Some(ErrV::UnexpectedAttribute { key: p.key, record_kind: kind })
        }
}

/// Decodes a section-opening tag's attributes and reports the first key that
/// is not `comment`.
#[verifier::loop_isolation(false)]
pub fn check_comment_only(raw: &str, kind: &str) -> (r: Option<ParseError>)
    ensures
        opt_err_view(r) == first_err_by(attrs_of(raw@), comment_only_checker(kind@)),
{
    let pairs = decode_attrs(raw);
    let ghost aps = attrs_of(raw@);
    let ghost f = comment_only_checker(kind@);
    let mut idx: usize = 0;
    proof {
        assert(aps.skip(0) =~= aps);
    }
    while idx < pairs.len()
        invariant
            idx <= pairs@.len(),
            first_err_by(aps, f) == first_err_by(aps.skip(idx as int), f),
        decreases pairs@.len() - idx,
    {
        let ghost p = aps[idx as int];
        proof {
            assert(p == pairs@[idx as int]@);
            assert(aps.skip(idx as int)[0] == p);
            assert(aps.skip(idx as int).drop_first() =~= aps.skip(idx as int + 1));
        }
        if !crate::utils::str_eq(pairs[idx].key.as_str(), "comment") {
            return Some(ParseError::UnexpectedAttribute {
                key: pairs[idx].key.clone(),
                record_kind: kind.to_owned(),
            });
        }
        idx += 1;
    }
    proof {
        assert(aps.skip(pairs@.len() as int) =~= Seq::<AttrV>::empty());
    }
    None
}

/// Whether a decoded pair list carries the key at all.
pub fn has_attr_key(pairs: &Vec<Attr>, key: &str) -> (r: bool)
    ensures
        r == found(attrs_view(pairs@), key@),
{
    let ghost aps = attrs_view(pairs@);
    let mut idx: usize = 0;
    while idx < pairs.len()
        invariant
            idx <= pairs@.len(),
            aps == attrs_view(pairs@),
            forall|j: int| 0 <= j < idx ==> aps[j].key != key@,
        decreases pairs@.len() - idx,
    {
        proof {
            assert(aps[idx as int] == pairs@[idx as int]@);
        }
        if crate::utils::str_eq(pairs[idx].key.as_str(), key) {
            proof {
                lemma_found_iff(aps, key@);
            }
            return true;
        }
        idx += 1;
    }
    proof {
        lemma_found_iff(aps, key@);
    }
    false
}

/// The value of the first pair carrying the key, cloned.
#[verifier::loop_isolation(false)]
pub fn find_attr_value(pairs: &Vec<Attr>, key: &str) -> (r: Option<String>)
    ensures
        opt_view(r) == first_val(attrs_view(pairs@), key@),
{
    let ghost aps = attrs_view(pairs@);
    let mut idx: usize = 0;
    proof {
        assert(aps.skip(0) =~= aps);
    }
    while idx < pairs.len()
        invariant
            idx <= pairs@.len(),
            first_val(aps, key@) == first_val(aps.skip(idx as int), key@),
        decreases pairs@.len() - idx,
    {
        proof {
            assert(aps[idx as int] == pairs@[idx as int]@);
            assert(aps.skip(idx as int)[0] == aps[idx as int]);
            assert(aps.skip(idx as int).drop_first() =~= aps.skip(idx as int + 1));
        }
        if crate::utils::str_eq(pairs[idx].key.as_str(), key) {
            return Some(pairs[idx].value.clone());
        }
        idx += 1;
    }
    proof {
        assert(aps.skip(pairs@.len() as int) =~= Seq::<AttrV>::empty());
    }
    None
}

/// The priority-ordered presence classifier shared by every ambiguous empty
/// tag: the index of the first key (in priority order) that the pair list
/// carries.
pub open spec fn spec_classify(ps: Seq<AttrV>, keys: Seq<Seq<char>>) -> Option<int>
    decreases keys.len(),
{
    if keys.len() == 0 {
        None
    } else if found(ps, keys[0]) {
        Some(0)
    } else {
        match spec_classify(ps, keys.drop_first()) {
            Some(i) => Some(i + 1),
            None => None,
        }
    }
}

/// Classifies a tag by which of the priority-ordered `keys` is present
/// first.
#[verifier::loop_isolation(false)]
pub fn classify_by_presence(pairs: &Vec<Attr>, keys: &Vec<&str>) -> (r: Option<usize>)
    ensures
        match r {
            Some(i) => i < keys@.len() && spec_classify(attrs_view(pairs@), seq_view(keys@))
                == Some(i as int),
            None => spec_classify(attrs_view(pairs@), seq_view(keys@)) is None,
        },
{
    let ghost aps = attrs_view(pairs@);
    let ghost kv = seq_view(keys@);
    let mut idx: usize = 0;
    proof {
        assert(kv.skip(0) =~= kv);
    }
    while idx < keys.len()
        invariant
            idx <= keys@.len(),
            match spec_classify(aps, kv.skip(idx as int)) {
                Some(i) => spec_classify(aps, kv) == Some(i + idx),
                None => spec_classify(aps, kv) is None,
            },
        decreases keys@.len() - idx,
    {
        proof {
            assert(kv[idx as int] == keys@[idx as int]@);
            assert(kv.skip(idx as int)[0] == kv[idx as int]);
            assert(kv.skip(idx as int).drop_first() =~= kv.skip(idx as int + 1));
        }
        if has_attr_key(pairs, keys[idx]) {
            return Some(idx);
        }
        idx += 1;
    }
    proof {
        assert(kv.skip(keys@.len() as int) =~= Seq::<Seq<char>>::empty());
    }
    None
}

/// No two pairs share a key.  Valid attribute sets have this shape; the
/// decoder's own documentation expects each key to appear once per tag.
pub open spec fn keys_distinct(ps: Seq<AttrV>) -> bool {
    forall|a: int, b: int| 0 <= a < b < ps.len() ==> ps[a].key != ps[b].key
}

proof fn lemma_last_val_some_contains(ps: Seq<AttrV>, key: Seq<char>)
    ensures
        match last_val(ps, key) {
            Some(v) => ps.contains(AttrV { key, value: v }),
            None => forall|j: int| 0 <= j < ps.len() ==> ps[j].key != key,
        },
    decreases ps.len(),
{
    if ps.len() > 0 {
        lemma_last_val_some_contains(ps.drop_last(), key);
        if ps.last().key == key {
            let a = AttrV { key, value: ps.last().value };
            assert(ps[ps.len() - 1] == a);
            assert(ps.contains(a));
        } else {
            match last_val(ps.drop_last(), key) {
                Some(v) => {
                    let a = AttrV { key, value: v };
                    let j = choose|j: int| 0 <= j < ps.drop_last().len() && ps.drop_last()[j] == a;
                    assert(ps[j] == a);
                    assert(ps.contains(a));
                },
                None => {
                    assert forall|j: int| 0 <= j < ps.len() implies ps[j].key != key by {
                        if j < ps.len() - 1 {
                            assert(ps.drop_last()[j] == ps[j]);
                        }
                    }
                },
            }
        }
    }
}

proof fn lemma_contains_last_val(ps: Seq<AttrV>, a: AttrV)
    requires
        keys_distinct(ps),
        ps.contains(a),
    ensures
        last_val(ps, a.key) == Some(a.value),
    decreases ps.len(),
{
    if ps.len() > 0 {
        if ps.last() == a {
        } else {
            let j = choose|j: int| 0 <= j < ps.len() && ps[j] == a;
            assert(ps.drop_last()[j] == a);
            lemma_contains_last_val(ps.drop_last(), a);
        }
    }
}

/// Looking a key up is insensitive to the order of the pairs, as long as no
/// key appears twice: the lists only need to hold the same pairs.
pub proof fn lemma_last_val_permutation(ps1: Seq<AttrV>, ps2: Seq<AttrV>, key: Seq<char>)
    requires
        keys_distinct(ps1),
        ps1.to_multiset() == ps2.to_multiset(),
    ensures
        last_val(ps2, key) == last_val(ps1, key),
{
    broadcast use vstd::seq_lib::group_to_multiset_ensures;

    lemma_keys_distinct_permutation(ps1, ps2);
    lemma_last_val_some_contains(ps1, key);
    lemma_last_val_some_contains(ps2, key);
    match last_val(ps1, key) {
        Some(v) => {
            let a = AttrV { key, value: v };
            assert(ps1.to_multiset().contains(a));
            assert(ps2.contains(a));
            lemma_contains_last_val(ps2, a);
        },
        None => {
            match last_val(ps2, key) {
                Some(v) => {
                    let a = AttrV { key, value: v };
                    assert(ps2.to_multiset().contains(a));
                    assert(ps1.contains(a));
                    let j = choose|j: int| 0 <= j < ps1.len() && ps1[j] == a;
                    assert(ps1[j].key == key);
                },
                None => {},
            }
        },
    }
}

/// Distinctness of keys carries over to any reordering of the same pairs.
pub proof fn lemma_keys_distinct_permutation(ps1: Seq<AttrV>, ps2: Seq<AttrV>)
    requires
        keys_distinct(ps1),
        ps1.to_multiset() == ps2.to_multiset(),
    ensures
        keys_distinct(ps2),
{
    broadcast use vstd::seq_lib::group_to_multiset_ensures;

    assert forall|a: int, b: int| 0 <= a < b < ps2.len() implies ps2[a].key != ps2[b].key by {
        if ps2[a].key == ps2[b].key {
            if ps2[a] == ps2[b] {
                let x = ps2[a];
                lemma_dup_count(ps2, a, b);
                assert(ps1.to_multiset().count(x) >= 2);
                lemma_count_two_indices(ps1, x);
            } else {
                assert(ps2.to_multiset().contains(ps2[a]));
                assert(ps2.to_multiset().contains(ps2[b]));
                assert(ps1.contains(ps2[a]));
                assert(ps1.contains(ps2[b]));
                let i1 = choose|j: int| 0 <= j < ps1.len() && ps1[j] == ps2[a];
                let i2 = choose|j: int| 0 <= j < ps1.len() && ps1[j] == ps2[b];
                assert(i1 != i2);
                if i1 < i2 {
                    assert(ps1[i1].key != ps1[i2].key);
                } else {
                    assert(ps1[i2].key != ps1[i1].key);
                }
            }
        }
    }
}

proof fn lemma_dup_count(ps: Seq<AttrV>, a: int, b: int)
    requires
        0 <= a < b < ps.len(),
        ps[a] == ps[b],
    ensures
        ps.to_multiset().count(ps[a]) >= 2,
    decreases ps.len(),
{
    broadcast use vstd::seq_lib::group_to_multiset_ensures;

    assert(ps =~= ps.drop_last().push(ps.last()));
    assert(ps.to_multiset() == ps.drop_last().to_multiset().insert(ps.last()));
    if b == ps.len() - 1 {
        assert(ps.drop_last()[a] == ps[a]);
        assert(ps.drop_last().to_multiset().contains(ps.drop_last()[a]));
        assert(ps.drop_last().to_multiset().count(ps[a]) >= 1);
    } else {
        lemma_dup_count(ps.drop_last(), a, b);
    }
}

proof fn lemma_count_two_indices(ps: Seq<AttrV>, x: AttrV)
    requires
        ps.to_multiset().count(x) >= 2,
    ensures
        exists|a: int, b: int| 0 <= a < b < ps.len() && ps[a] == x && ps[b] == x,
    decreases ps.len(),
{
    broadcast use vstd::seq_lib::group_to_multiset_ensures;

    assert(ps.len() > 0);
    assert(ps =~= ps.drop_last().push(ps.last()));
    assert(ps.to_multiset() == ps.drop_last().to_multiset().insert(ps.last()));
    if ps.last() == x {
        if ps.drop_last().to_multiset().count(x) >= 1 {
            assert(ps.drop_last().contains(x));
            let a = choose|j: int| 0 <= j < ps.drop_last().len() && ps.drop_last()[j] == x;
            assert(ps[a] == x && ps[ps.len() - 1] == x);
        } else {
            assert(false);
        }
    } else {
        lemma_count_two_indices(ps.drop_last(), x);
        let (a, b) = choose|a: int, b: int|
            0 <= a < b < ps.drop_last().len() && ps.drop_last()[a] == x && ps.drop_last()[b] == x;
        assert(ps[a] == x && ps[b] == x);
    }
}

/// Presence of a key is likewise insensitive to the order of the pairs.
pub proof fn lemma_found_permutation(ps1: Seq<AttrV>, ps2: Seq<AttrV>, key: Seq<char>)
    requires
        keys_distinct(ps1),
        ps1.to_multiset() == ps2.to_multiset(),
    ensures
        found(ps2, key) == found(ps1, key),
{
    lemma_last_val_permutation(ps1, ps2, key);
}

/// Presence of an exact pair is a statement about the pairs alone, so it too
/// survives reordering (no distinctness needed).
pub proof fn lemma_has_pair_permutation(
    ps1: Seq<AttrV>,
    ps2: Seq<AttrV>,
    key: Seq<char>,
    value: Seq<char>,
)
    requires
        ps1.to_multiset() == ps2.to_multiset(),
    ensures
        has_pair(ps2, key, value) == has_pair(ps1, key, value),
{
    lemma_has_pair_contains(ps1, key, value);
    lemma_has_pair_contains(ps2, key, value);
    broadcast use vstd::seq_lib::group_to_multiset_ensures;

    if ps1.contains(AttrV { key, value }) {
        assert(ps1.to_multiset().contains(AttrV { key, value }));
    }
    if ps2.contains(AttrV { key, value }) {
        assert(ps2.to_multiset().contains(AttrV { key, value }));
    }
}

proof fn lemma_has_pair_contains(ps: Seq<AttrV>, key: Seq<char>, value: Seq<char>)
    ensures
        has_pair(ps, key, value) == ps.contains(AttrV { key, value }),
    decreases ps.len(),
{
    if ps.len() > 0 {
        lemma_has_pair_contains(ps.drop_last(), key, value);
        let a = AttrV { key, value };
        if ps.last() == a {
        } else if ps.drop_last().contains(a) {
            let j = choose|j: int| 0 <= j < ps.drop_last().len() && ps.drop_last()[j] == a;
            assert(ps[j] == a);
        } else if ps.contains(a) {
            let j = choose|j: int| 0 <= j < ps.len() && ps[j] == a;
            assert(ps.drop_last()[j] == a);
        }
    }
}

} // verus!
