//! User metadata, and its form in the `x-ms-properties` header.

use crate::codec;
use crate::text;
use vstd::prelude::*;
use vstd::string::*;
use vstd::utf8::*;

verus! {

/// The map that a list of pairs describes. Where a key occurs more than once, the last pair
/// holds.
pub open spec fn map_of(pairs: Seq<(Seq<char>, Seq<char>)>) -> Map<Seq<char>, Seq<char>>
    decreases pairs.len(),
{
    if pairs.len() == 0 {
        Map::empty()
    } else {
        map_of(pairs.drop_last()).insert(pairs.last().0, pairs.last().1)
    }
}

/// Whether no key occurs twice.
pub open spec fn distinct_keys(pairs: Seq<(Seq<char>, Seq<char>)>) -> bool {
    forall|i: int, j: int|
        0 <= i < j < pairs.len() ==> (#[trigger] pairs[i]).0 != (#[trigger] pairs[j]).0
}

/// What a list of pairs of strings holds.
pub open spec fn pair_texts(list: Seq<(String, String)>) -> Seq<(Seq<char>, Seq<char>)> {
    list.map_values(|p: (String, String)| (p.0@, p.1@))
}

/// A list of pairs describes a finite map of the keys that occur in it.
pub proof fn lemma_map_of_contains(pairs: Seq<(Seq<char>, Seq<char>)>, k: Seq<char>)
    ensures
        map_of(pairs).dom().finite(),
        map_of(pairs).contains_key(k) <==> exists|i: int|
            0 <= i < pairs.len() && (#[trigger] pairs[i]).0 == k,
    decreases pairs.len(),
{
    if pairs.len() > 0 {
        let init = pairs.drop_last();
        lemma_map_of_contains(init, k);
        if exists|i: int| 0 <= i < init.len() && (#[trigger] init[i]).0 == k {
            let i = choose|i: int| 0 <= i < init.len() && (#[trigger] init[i]).0 == k;
            assert(pairs[i].0 == k);
        }
        if exists|i: int| 0 <= i < pairs.len() && (#[trigger] pairs[i]).0 == k {
            let i = choose|i: int| 0 <= i < pairs.len() && (#[trigger] pairs[i]).0 == k;
            if i < init.len() {
                assert(init[i].0 == k);
            }
        }
    }
}

/// A list without its last pair still has no key twice.
proof fn lemma_distinct_init(pairs: Seq<(Seq<char>, Seq<char>)>)
    requires
        distinct_keys(pairs),
        pairs.len() > 0,
    ensures
        distinct_keys(pairs.drop_last()),
{
    let init = pairs.drop_last();
    assert forall|a: int, b: int| 0 <= a < b < init.len() implies (#[trigger] init[a]).0 != (
    #[trigger] init[b]).0 by {
        assert(pairs[a].0 != pairs[b].0);
    }
}

proof fn lemma_map_of_value(pairs: Seq<(Seq<char>, Seq<char>)>, i: int)
    requires
        distinct_keys(pairs),
        0 <= i < pairs.len(),
    ensures
        map_of(pairs).contains_key(pairs[i].0),
        map_of(pairs)[pairs[i].0] == pairs[i].1,
    decreases pairs.len(),
{
    let init = pairs.drop_last();
    if i < init.len() {
        lemma_distinct_init(pairs);
        lemma_map_of_value(init, i);
        assert(pairs[i].0 != pairs[pairs.len() - 1].0);
    }
}

proof fn lemma_map_of_len(pairs: Seq<(Seq<char>, Seq<char>)>)
    requires
        distinct_keys(pairs),
    ensures
        map_of(pairs).dom().finite(),
        map_of(pairs).dom().len() == pairs.len(),
    decreases pairs.len(),
{
    if pairs.len() > 0 {
        let init = pairs.drop_last();
        lemma_distinct_init(pairs);
        lemma_map_of_len(init);
        let k = pairs.last().0;
        lemma_map_of_contains(init, k);
        if map_of(init).contains_key(k) {
            let i = choose|i: int| 0 <= i < init.len() && (#[trigger] init[i]).0 == k;
            assert(pairs[i].0 != pairs[pairs.len() - 1].0);
        }
        assert(map_of(pairs).dom() =~= map_of(init).dom().insert(k));
    } else {
        assert(map_of(pairs).dom() =~= Set::<Seq<char>>::empty());
    }
}

proof fn lemma_same_map(a: Seq<(Seq<char>, Seq<char>)>, b: Seq<(Seq<char>, Seq<char>)>)
    requires
        distinct_keys(a),
        distinct_keys(b),
        a.len() == b.len(),
        forall|j: int|
            0 <= j < a.len() ==> {
                let p = #[trigger] a[j];
                map_of(b).contains_key(p.0) && map_of(b)[p.0] == p.1
            },
    ensures
        map_of(a) == map_of(b),
{
    let ma = map_of(a);
    let mb = map_of(b);
    lemma_map_of_len(a);
    lemma_map_of_len(b);
    assert forall|k: Seq<char>| #[trigger] ma.dom().contains(k) implies mb.dom().contains(k) && mb[k] == ma[k] by {
        lemma_map_of_contains(a, k);
        let i = choose|i: int| 0 <= i < a.len() && (#[trigger] a[i]).0 == k;
        lemma_map_of_value(a, i);
    }
    assert(ma.dom().subset_of(mb.dom()));
    vstd::set_lib::lemma_subset_equality(ma.dom(), mb.dom());
    assert(ma =~= mb);
}

/// The list with the value of `k` set: in place where `k` occurs, at the end elsewhere.
pub open spec fn set_pair(
    pairs: Seq<(Seq<char>, Seq<char>)>,
    k: Seq<char>,
    v: Seq<char>,
) -> Seq<(Seq<char>, Seq<char>)> {
    if exists|i: int| 0 <= i < pairs.len() && (#[trigger] pairs[i]).0 == k {
        let i = choose|i: int| 0 <= i < pairs.len() && (#[trigger] pairs[i]).0 == k;
        pairs.update(i, (k, v))
    } else {
        pairs.push((k, v))
    }
}

proof fn lemma_map_of_update(
    pairs: Seq<(Seq<char>, Seq<char>)>,
    i: int,
    k: Seq<char>,
    v: Seq<char>,
)
    requires
        distinct_keys(pairs),
        0 <= i < pairs.len(),
        pairs[i].0 == k,
    ensures
        distinct_keys(pairs.update(i, (k, v))),
        map_of(pairs.update(i, (k, v))) == map_of(pairs).insert(k, v),
    decreases pairs.len(),
{
    let init = pairs.drop_last();
    let next = pairs.update(i, (k, v));
    assert forall|a: int, b: int| 0 <= a < b < next.len() implies (#[trigger] next[a]).0 != (
    #[trigger] next[b]).0 by {
        assert(pairs[a].0 != pairs[b].0);
    }
    if i < init.len() {
        lemma_distinct_init(pairs);
        lemma_map_of_update(init, i, k, v);
        assert(next.drop_last() =~= init.update(i, (k, v)));
        assert(pairs[i].0 != pairs[pairs.len() - 1].0);
        assert(map_of(next) =~= map_of(pairs).insert(k, v));
    } else {
        assert(next.drop_last() =~= init);
        assert(map_of(next) =~= map_of(pairs).insert(k, v));
    }
}

proof fn lemma_set_pair(pairs: Seq<(Seq<char>, Seq<char>)>, i: int, k: Seq<char>, v: Seq<char>)
    requires
        distinct_keys(pairs),
        0 <= i <= pairs.len(),
        i < pairs.len() ==> pairs[i].0 == k,
        forall|j: int| 0 <= j < i ==> (#[trigger] pairs[j]).0 != k,
    ensures
        set_pair(pairs, k, v) == if i < pairs.len() {
            pairs.update(i, (k, v))
        } else {
            pairs.push((k, v))
        },
        distinct_keys(set_pair(pairs, k, v)),
        map_of(set_pair(pairs, k, v)) == map_of(pairs).insert(k, v),
{
    if i < pairs.len() {
        assert(pairs[i].0 == k);
        let c = choose|c: int| 0 <= c < pairs.len() && (#[trigger] pairs[c]).0 == k;
        if c != i {
            if c < i {
                assert(pairs[c].0 != pairs[i].0);
            } else {
                assert(pairs[i].0 != pairs[c].0);
            }
        }
        lemma_map_of_update(pairs, i, k, v);
    } else {
        let next = pairs.push((k, v));
        assert(next.drop_last() =~= pairs);
        assert forall|a: int, b: int| 0 <= a < b < next.len() implies (#[trigger] next[a]).0 != (
        #[trigger] next[b]).0 by {
            assert(next[a] == pairs[a]);
            if b < pairs.len() {
                assert(pairs[a].0 != pairs[b].0);
            }
        }
    }
}

/// Metadata that a user attaches to a path: names with values, no name twice.
#[derive(Debug)]
pub struct UserMetadata {
    entries: Vec<(String, String)>,
}

impl View for UserMetadata {
    type V = Map<Seq<char>, Seq<char>>;

    open spec fn view(&self) -> Map<Seq<char>, Seq<char>> {
        map_of(self.pairs())
    }
}

impl UserMetadata {
    /// The names with their values, in the order in which the names were first set.
    pub closed spec fn pairs(&self) -> Seq<(Seq<char>, Seq<char>)> {
        pair_texts(self.entries@)
    }

    #[verifier::type_invariant]
    spec fn inv(&self) -> bool {
        distinct_keys(self.pairs())
    }

    /// No entries.
    pub fn new() -> (r: Self)
        ensures
            r.pairs() == Seq::<(Seq<char>, Seq<char>)>::empty(),
            r@ == Map::<Seq<char>, Seq<char>>::empty(),
    {
        let r = UserMetadata { entries: Vec::new() };
        proof {
            assert(r.pairs() =~= seq![]);
        }
        r
    }

    /// Where the name stands among the entries; their number where it does not occur.
    fn position(&self, key: &str) -> (r: usize)
        ensures
            r <= self.entries@.len(),
            r < self.entries@.len() ==> self.pairs()[r as int].0 == key@,
            forall|j: int| 0 <= j < r ==> (#[trigger] self.pairs()[j]).0 != key@,
    {
        let mut i: usize = 0;
        while i < self.entries.len() && !text::same_text(self.entries[i].0.as_str(), key)
            invariant
                i <= self.entries@.len(),
                forall|j: int| 0 <= j < i ==> (#[trigger] self.pairs()[j]).0 != key@,
            decreases self.entries@.len() - i,
        {
            i = i + 1;
        }
        i
    }

    /// Sets the value of a name. A new name goes to the end; a name that is there keeps its
    /// place.
    pub fn insert(&mut self, key: String, value: String)
        ensures
            final(self).pairs() == set_pair(old(self).pairs(), key@, value@),
            final(self)@ == old(self)@.insert(key@, value@),
    {
        let i = self.position(key.as_str());
        let ghost before = self.pairs();
        let ghost k = key@;
        let ghost v = value@;
        proof {
            use_type_invariant(&*self);
            lemma_set_pair(before, i as int, k, v);
        }
        let mut entries: Vec<(String, String)> = Vec::new();
        proof {
            assert(pair_texts(entries@) =~= seq![]);
        }
        std::mem::swap(&mut entries, &mut self.entries);
        if i < entries.len() {
            entries.set(i, (key, value));
            proof {
                assert(pair_texts(entries@) =~= before.update(i as int, (k, v)));
            }
        } else {
            entries.push((key, value));
            proof {
                assert(pair_texts(entries@) =~= before.push((k, v)));
            }
        }
        self.entries = entries;
    }

    /// The value of a name.
    pub fn get(&self, key: &str) -> (r: Option<&String>)
        ensures
            match r {
                Some(v) => self@.contains_key(key@) && v@ == self@[key@],
                None => !self@.contains_key(key@),
            },
    {
        let i = self.position(key);
        proof {
            use_type_invariant(self);
            lemma_map_of_contains(self.pairs(), key@);
            if i < self.entries@.len() {
                lemma_map_of_value(self.pairs(), i as int);
            }
        }
        if i < self.entries.len() {
            Some(&self.entries[i].1)
        } else {
            None
        }
    }

    /// Whether there are no entries.
    pub fn is_empty(&self) -> (r: bool)
        ensures
            r == (self.pairs().len() == 0),
            r == (self@ == Map::<Seq<char>, Seq<char>>::empty()),
    {
        proof {
            if self.pairs().len() > 0 {
                lemma_map_of_contains(self.pairs(), self.pairs()[0].0);
                assert(self@.contains_key(self.pairs()[0].0));
            }
        }
        self.entries.len() == 0
    }

    /// The names with their values.
    pub fn into_pairs(self) -> (r: Vec<(String, String)>)
        ensures
            pair_texts(r@) == self.pairs(),
            distinct_keys(pair_texts(r@)),
    {
        proof {
            use_type_invariant(&self);
        }
        self.entries
    }

    /// How many names there are.
    pub fn len(&self) -> (r: usize)
        ensures
            r == self.pairs().len(),
            r == self@.dom().len(),
    {
        proof {
            use_type_invariant(self);
            lemma_map_of_len(self.pairs());
        }
        self.entries.len()
    }
}

impl PartialEq for UserMetadata {
    fn eq(&self, other: &Self) -> (r: bool) {
        proof {
            use_type_invariant(self);
            use_type_invariant(other);
        }
        if self.entries.len() != other.entries.len() {
            proof {
                lemma_map_of_len(self.pairs());
                lemma_map_of_len(other.pairs());
            }
            return false;
        }
        let mut i: usize = 0;
        while i < self.entries.len()
            invariant
                i <= self.entries@.len(),
                self.entries@.len() == other.entries@.len(),
                distinct_keys(self.pairs()),
                forall|j: int|
                    0 <= j < i ==> {
                        let p = #[trigger] self.pairs()[j];
                        other@.contains_key(p.0) && other@[p.0] == p.1
                    },
            decreases self.entries@.len() - i,
        {
            proof {
                lemma_map_of_value(self.pairs(), i as int);
            }
            let same = match other.get(self.entries[i].0.as_str()) {
                Some(v) => text::same_text(v.as_str(), self.entries[i].1.as_str()),
                None => false,
            };
            if !same {
                return false;
            }
            i = i + 1;
        }
        proof {
            lemma_same_map(self.pairs(), other.pairs());
        }
        true
    }
}

impl vstd::std_specs::cmp::PartialEqSpecImpl for UserMetadata {
    open spec fn obeys_eq_spec() -> bool {
        true
    }

    open spec fn eq_spec(&self, other: &Self) -> bool {
        self@ == other@
    }
}

/// One pair of a property list: the name, `=`, and the base64 text of the value's UTF-8 bytes.
pub open spec fn encoded_pair(p: (Seq<char>, Seq<char>)) -> Seq<char> {
    p.0 + seq!['='] + codec::base64_text(encode_utf8(p.1))
}

/// A property list: its pairs in order, a comma between each two.
pub open spec fn encoded_properties(pairs: Seq<(Seq<char>, Seq<char>)>) -> Seq<char> {
    text::join_with(pairs.map_values(|p: (Seq<char>, Seq<char>)| encoded_pair(p)), seq![','])
}

/// The name and the value that one piece of a property list holds: white space around it does
/// not count, the name ends at the first `=`, and the rest must be the base64 text of valid
/// UTF-8.
pub open spec fn parsed_pair(piece: Seq<char>) -> Option<(Seq<char>, Seq<char>)> {
    let p = text::trimmed(piece);
    let n = text::head_len(p, '=') as int;
    if n >= p.len() {
        None
    } else {
        match codec::base64_bytes(p.skip(n + 1)) {
            Some(b) => if valid_utf8(b) {
                Some((p.take(n), decode_utf8(b)))
            } else {
                None
            },
            None => None,
        }
    }
}

/// The pairs that the pieces hold, in order. A piece that holds none is passed over.
pub open spec fn parsed_pairs(pieces: Seq<Seq<char>>) -> Seq<(Seq<char>, Seq<char>)>
    decreases pieces.len(),
{
    if pieces.len() == 0 {
        seq![]
    } else {
        let init = parsed_pairs(pieces.drop_last());
        match parsed_pair(pieces.last()) {
            Some(p) => init.push(p),
            None => init,
        }
    }
}

/// What a property list says, as a map. Of several values of one name, the last holds.
pub open spec fn decoded_properties(header: Seq<char>) -> Map<Seq<char>, Seq<char>> {
    map_of(parsed_pairs(text::split_on(header, ',')))
}

/// Encode user metadata into the `x-ms-properties` header format.
///
/// ADLS Gen2 uses a comma-separated list of `name=base64(value)` pairs.
/// Ref: <https://learn.microsoft.com/en-us/rest/api/storageservices/datalakestoragegen2/path/create>
pub fn encode_properties(metadata: &UserMetadata) -> (r: String)
    ensures
        r@ == encoded_properties(metadata.pairs()),
{
    let mut parts: Vec<String> = Vec::new();
    let mut i: usize = 0;
    proof {
        reveal_strlit("=");
        reveal_strlit(",");
        assert("="@ =~= seq!['=']);
        assert(","@ =~= seq![',']);
    }
    while i < metadata.entries.len()
        invariant
            i <= metadata.entries@.len(),
            "="@ == seq!['='],
            parts@.len() == i,
            forall|j: int|
                0 <= j < i ==> (#[trigger] parts@[j])@ == encoded_pair(metadata.pairs()[j]),
        decreases metadata.entries@.len() - i,
    {
        let mut part = metadata.entries[i].0.clone();
        part.append("=");
        let value = codec::base64_encode(metadata.entries[i].1.as_str());
        part.append(value.as_str());
        parts.push(part);
        i = i + 1;
    }
    proof {
        assert(text::texts(parts@) =~= metadata.pairs().map_values(
            |p: (Seq<char>, Seq<char>)| encoded_pair(p),
        ));
    }
    text::join_texts(&parts, ",")
}

/// What one piece of a property list holds.
fn parse_pair(piece: &str) -> (r: Option<(String, String)>)
    ensures
        match r {
            Some(p) => parsed_pair(piece@) == Some((p.0@, p.1@)),
            None => parsed_pair(piece@) is None,
        },
{
    let pair = piece.trim();
    match text::split_once_text(pair, '=') {
        Some((key, encoded)) => {
            match codec::base64_decode(encoded.as_str()) {
                Ok(decoded) => {
                    proof {
                        codec::law_base64_round_trip(decoded@);
                    }
                    match String::from_utf8(decoded) {
                        Ok(value) => Some((key, value)),
                        Err(_) => None,
                    }
                },
                Err(_) => None,
            }
        },
        None => None,
    }
}

/// Decode the `x-ms-properties` response header.
///
/// The header value is a comma-separated list of `name=base64(value)` pairs.
/// Ref: <https://learn.microsoft.com/en-us/rest/api/storageservices/datalakestoragegen2/path/get-properties>
pub fn decode_properties(header: &str) -> (r: UserMetadata)
    ensures
        r@ == decoded_properties(header@),
{
    let mut result = UserMetadata::new();
    let pieces = text::split_text(header, ',');
    let ghost all = text::texts(pieces@);
    let mut i: usize = 0;
    while i < pieces.len()
        invariant
            i <= pieces@.len(),
            all == text::texts(pieces@),
            result@ == map_of(parsed_pairs(all.take(i as int))),
        decreases pieces@.len() - i,
    {
        proof {
            assert(all.take(i + 1).drop_last() =~= all.take(i as int));
            assert(all.take(i + 1).last() == pieces@[i as int]@);
        }
        let ghost before = parsed_pairs(all.take(i as int));
        match parse_pair(pieces[i].as_str()) {
            Some((key, value)) => {
                proof {
                    assert(before.push((key@, value@)).drop_last() =~= before);
                }
                result.insert(key, value);
            },
            None => {},
        }
        i = i + 1;
    }
    proof {
        assert(all.take(pieces@.len() as int) =~= all);
    }
    result
}

/// Whether a property list can carry the name: it holds neither separator, and does not start
/// with white space.
pub open spec fn storable_name(k: Seq<char>) -> bool {
    &&& forall|i: int| 0 <= i < k.len() ==> k[i] != ',' && k[i] != '='
    &&& k.len() > 0 ==> !text::white_space(k[0])
}

proof fn lemma_parsed_pairs_concat(a: Seq<Seq<char>>, b: Seq<Seq<char>>)
    ensures
        parsed_pairs(a + b) == parsed_pairs(a) + parsed_pairs(b),
    decreases b.len(),
{
    if b.len() == 0 {
        assert(a + b =~= a);
        assert(parsed_pairs(a) + seq![] =~= parsed_pairs(a));
    } else {
        assert((a + b).drop_last() =~= a + b.drop_last());
        lemma_parsed_pairs_concat(a, b.drop_last());
        assert(parsed_pairs(a + b) =~= parsed_pairs(a) + parsed_pairs(b));
    }
}

proof fn lemma_map_of_concat(
    a: Seq<(Seq<char>, Seq<char>)>,
    b: Seq<(Seq<char>, Seq<char>)>,
)
    ensures
        map_of(a + b) == map_of(a).union_prefer_right(map_of(b)),
    decreases b.len(),
{
    if b.len() == 0 {
        assert(a + b =~= a);
        assert(map_of(a).union_prefer_right(Map::empty()) =~= map_of(a));
    } else {
        assert((a + b).drop_last() =~= a + b.drop_last());
        lemma_map_of_concat(a, b.drop_last());
        assert(map_of(a + b) =~= map_of(a).union_prefer_right(map_of(b)));
    }
}

/// Two property lists with a comma between them say what both say. Where both have a name, the
/// second holds.
pub proof fn law_decode_concat(a: Seq<char>, b: Seq<char>)
    ensures
        decoded_properties(a + seq![','] + b) == decoded_properties(a).union_prefer_right(
            decoded_properties(b),
        ),
{
    text::lemma_split_concat(a, b, ',');
    lemma_parsed_pairs_concat(text::split_on(a, ','), text::split_on(b, ','));
    lemma_map_of_concat(
        parsed_pairs(text::split_on(a, ',')),
        parsed_pairs(text::split_on(b, ',')),
    );
}

/// A piece that holds no pair (no `=`, malformed base64, or bytes that are not UTF-8) adds
/// nothing, and takes nothing away from its neighbours.
pub proof fn law_malformed_piece_skipped(a: Seq<char>, piece: Seq<char>, b: Seq<char>)
    requires
        forall|i: int| 0 <= i < piece.len() ==> piece[i] != ',',
        parsed_pair(piece) is None,
    ensures
        decoded_properties(piece) == Map::<Seq<char>, Seq<char>>::empty(),
        decoded_properties(a + seq![','] + piece) == decoded_properties(a),
        decoded_properties(piece + seq![','] + b) == decoded_properties(b),
        decoded_properties(a + seq![','] + piece + seq![','] + b) == decoded_properties(
            a + seq![','] + b,
        ),
{
    let none = Map::<Seq<char>, Seq<char>>::empty();
    text::lemma_head_len_absent(piece, ',');
    assert(text::split_on(piece, ',') =~= seq![piece]);
    assert(parsed_pairs(seq![piece]) =~= seq![]) by {
        reveal_with_fuel(parsed_pairs, 2);
    }
    law_decode_concat(a, piece);
    law_decode_concat(piece, b);
    law_decode_concat(a + seq![','] + piece, b);
    law_decode_concat(a, b);
    assert(decoded_properties(a).union_prefer_right(none) =~= decoded_properties(a));
    assert(none.union_prefer_right(decoded_properties(b)) =~= decoded_properties(b));
}

/// A pair that is written is read back.
pub proof fn law_pair_round_trip(p: (Seq<char>, Seq<char>))
    requires
        storable_name(p.0),
    ensures
        parsed_pair(encoded_pair(p)) == Some(p),
{
    let b = encode_utf8(p.1);
    let value = codec::base64_text(b);
    let s = encoded_pair(p);
    codec::lemma_base64_chars(b);
    assert(!text::white_space(s[0]));
    assert(!text::white_space(s.last())) by {
        if value.len() > 0 {
            assert(s.last() == value[value.len() - 1]);
        }
    }
    assert(text::trimmed(s) == s);
    text::lemma_head_len_absent(p.0, '=');
    text::lemma_head_len_concat(p.0, seq!['='] + value, '=');
    assert(s =~= p.0 + (seq!['='] + value));
    assert(s.skip(p.0.len() as int + 1) =~= value);
    assert(s.take(p.0.len() as int) =~= p.0);
    codec::law_base64_round_trip(b);
    encode_utf8_valid_utf8(p.1);
    encode_utf8_decode_utf8(p.1);
}

proof fn lemma_parsed_pairs_encoded(pairs: Seq<(Seq<char>, Seq<char>)>)
    requires
        forall|i: int| 0 <= i < pairs.len() ==> storable_name((#[trigger] pairs[i]).0),
    ensures
        parsed_pairs(pairs.map_values(|p: (Seq<char>, Seq<char>)| encoded_pair(p))) == pairs,
    decreases pairs.len(),
{
    let f = |p: (Seq<char>, Seq<char>)| encoded_pair(p);
    if pairs.len() > 0 {
        let init = pairs.drop_last();
        assert forall|i: int| 0 <= i < init.len() implies storable_name((#[trigger] init[i]).0) by {
            assert(init[i] == pairs[i]);
        }
        lemma_parsed_pairs_encoded(init);
        assert(pairs.map_values(f).drop_last() =~= init.map_values(f));
        assert(pairs.map_values(f).last() == encoded_pair(pairs[pairs.len() - 1]));
        law_pair_round_trip(pairs[pairs.len() - 1]);
        assert(init.push(pairs.last()) =~= pairs);
    } else {
        assert(pairs =~= seq![]);
        assert(pairs.map_values(f) =~= seq![]);
    }
}

/// Decoding undoes encoding: whatever the values are, and in whatever order the names are
/// written, the same names come back with the same values.
pub proof fn law_properties_round_trip(pairs: Seq<(Seq<char>, Seq<char>)>)
    requires
        forall|i: int| 0 <= i < pairs.len() ==> storable_name((#[trigger] pairs[i]).0),
    ensures
        decoded_properties(encoded_properties(pairs)) == map_of(pairs),
{
    let parts = pairs.map_values(|p: (Seq<char>, Seq<char>)| encoded_pair(p));
    if pairs.len() == 0 {
        let e = Seq::<char>::empty();
        assert(encoded_properties(pairs) =~= e);
        assert(text::split_on(e, ',') =~= seq![e]);
        assert(parsed_pair(e) is None);
        assert(parsed_pairs(seq![e]) =~= pairs) by {
            reveal_with_fuel(parsed_pairs, 2);
        }
    } else {
        assert forall|i: int, j: int|
            0 <= i < parts.len() && 0 <= j < parts[i].len() implies #[trigger] parts[i][j] != ',' by {
            let p = pairs[i];
            let value = codec::base64_text(encode_utf8(p.1));
            codec::lemma_base64_chars(encode_utf8(p.1));
            assert(parts[i] == encoded_pair(p));
            if j > p.0.len() {
                assert(parts[i][j] == value[j - p.0.len() - 1]);
            }
        }
        text::lemma_split_join(parts, ',');
        lemma_parsed_pairs_encoded(pairs);
    }
}

/// Every name that is read can be written: reading never gives a name that a property list
/// cannot carry.
pub proof fn law_read_names_storable(header: Seq<char>, name: Seq<char>)
    requires
        decoded_properties(header).contains_key(name),
    ensures
        storable_name(name),
{
    let pieces = text::split_on(header, ',');
    text::lemma_split_pieces(header, ',');
    lemma_map_of_contains(parsed_pairs(pieces), name);
    lemma_parsed_names(pieces);
}

proof fn lemma_parsed_names(pieces: Seq<Seq<char>>)
    requires
        text::split_free(pieces, ','),
    ensures
        forall|i: int|
            0 <= i < parsed_pairs(pieces).len() ==> storable_name(
                (#[trigger] parsed_pairs(pieces)[i]).0,
            ),
    decreases pieces.len(),
{
    if pieces.len() > 0 {
        let init = pieces.drop_last();
        let last = pieces.last();
        assert forall|i: int, j: int|
            0 <= i < init.len() && 0 <= j < init[i].len() implies #[trigger] init[i][j] != ',' by {
            assert(pieces[i][j] != ',');
        }
        lemma_parsed_names(init);
        let p = text::trimmed(last);
        text::lemma_trimmed(last);
        text::lemma_head_len_bound(p, '=');
        let n = text::head_len(p, '=') as int;
        if parsed_pair(last) is Some {
            let name = p.take(n);
            assert forall|i: int| 0 <= i < name.len() implies name[i] != ',' && name[i] != '=' by {
                let k = choose|k: int| 0 <= k <= last.len() && k + p.len() <= last.len() && p
                    == #[trigger] last.subrange(k, k + p.len());
                assert(p[i] == last[k + i]);
                assert(pieces[pieces.len() - 1][k + i] != ',');
            }
            if name.len() > 0 {
                assert(name[0] == p[0]);
            }
            assert(storable_name(name));
        }
        let all = parsed_pairs(pieces);
        let rest = parsed_pairs(init);
        assert forall|i: int| 0 <= i < all.len() implies storable_name((#[trigger] all[i]).0) by {
            if i < rest.len() {
                assert(all[i] == rest[i]);
            }
        }
    }
}

/// Whether a text consists of visible ASCII characters, spaces and tabs.
pub open spec fn visible_text(s: Seq<char>) -> bool {
    forall|i: int| 0 <= i < s.len() ==> (#[trigger] s[i] == '\t' || ' ' <= s[i] <= '~')
}

/// A property list is visible ASCII text if its names are, whatever the values hold.
pub proof fn law_properties_visible(pairs: Seq<(Seq<char>, Seq<char>)>)
    requires
        forall|i: int| 0 <= i < pairs.len() ==> visible_text((#[trigger] pairs[i]).0),
    ensures
        visible_text(encoded_properties(pairs)),
{
    let parts = pairs.map_values(|p: (Seq<char>, Seq<char>)| encoded_pair(p));
    assert forall|i: int| 0 <= i < parts.len() implies visible_text(#[trigger] parts[i]) by {
        let p = pairs[i];
        let value = codec::base64_text(encode_utf8(p.1));
        codec::lemma_base64_chars(encode_utf8(p.1));
        assert(parts[i] == encoded_pair(p));
        assert(visible_text(p.0));
        assert forall|j: int| 0 <= j < parts[i].len() implies (#[trigger] parts[i][j] == '\t' || ' '
            <= parts[i][j] <= '~') by {
            if j < p.0.len() {
                assert(parts[i][j] == p.0[j]);
            } else if j > p.0.len() {
                assert(parts[i][j] == value[j - p.0.len() - 1]);
            }
        }
    }
    lemma_join_visible(parts);
}

proof fn lemma_join_visible(parts: Seq<Seq<char>>)
    requires
        forall|i: int| 0 <= i < parts.len() ==> visible_text(#[trigger] parts[i]),
    ensures
        visible_text(text::join_with(parts, seq![','])),
    decreases parts.len(),
{
    if parts.len() > 1 {
        let init = parts.drop_last();
        assert forall|i: int| 0 <= i < init.len() implies visible_text(#[trigger] init[i]) by {
            assert(init[i] == parts[i]);
        }
        lemma_join_visible(init);
        let head = text::join_with(init, seq![',']);
        let all = text::join_with(parts, seq![',']);
        let last = parts[parts.len() - 1];
        assert(visible_text(last));
        assert forall|j: int| 0 <= j < all.len() implies (#[trigger] all[j] == '\t' || ' ' <= all[j]
            <= '~') by {
            if j < head.len() {
                assert(all[j] == head[j]);
            } else if j > head.len() {
                assert(all[j] == last[j - head.len() - 1]);
            }
        }
    } else if parts.len() == 1 {
        assert(visible_text(parts[0]));
    }
}

/// Only metadata without entries has an empty property list.
pub proof fn law_empty_list(pairs: Seq<(Seq<char>, Seq<char>)>)
    ensures
        encoded_properties(pairs).len() == 0 <==> pairs.len() == 0,
{
    let parts = pairs.map_values(|p: (Seq<char>, Seq<char>)| encoded_pair(p));
    if pairs.len() > 0 {
        assert(parts.last() == encoded_pair(pairs.last()));
    }
}

/// How user metadata is written: a pair is the name, an equals sign and the base64 text of the
/// value, and two lists of pairs are written with a comma between them.
pub proof fn law_list_format(
    p: (Seq<char>, Seq<char>),
    a: Seq<(Seq<char>, Seq<char>)>,
    b: Seq<(Seq<char>, Seq<char>)>,
)
    requires
        a.len() > 0,
        b.len() > 0,
    ensures
        encoded_properties(seq![p]) == p.0 + "="@ + codec::base64_text(encode_utf8(p.1)),
        encoded_properties(a + b) == encoded_properties(a) + ","@ + encoded_properties(b),
{
    reveal_strlit("=");
    reveal_strlit(",");
    assert("="@ =~= seq!['=']);
    assert(","@ =~= seq![',']);
    let f = |p: (Seq<char>, Seq<char>)| encoded_pair(p);
    assert(seq![p].map_values(f) =~= seq![f(p)]);
    assert((a + b).map_values(f) =~= a.map_values(f) + b.map_values(f));
    text::law_join_parts(a.map_values(f), b.map_values(f), seq![',']);
}

/// Whether a piece of a property list is a name, an equals sign and the base64 text of a value,
/// with white space around.
pub open spec fn holds_pair(
    piece: Seq<char>,
    before: Seq<char>,
    name: Seq<char>,
    value: Seq<char>,
    after: Seq<char>,
) -> bool {
    &&& piece == before + (name + seq!['='] + codec::base64_text(encode_utf8(value))) + after
    &&& forall|i: int| 0 <= i < before.len() ==> text::white_space(#[trigger] before[i])
    &&& forall|i: int| 0 <= i < after.len() ==> text::white_space(#[trigger] after[i])
    &&& storable_name(name)
}

/// A piece that holds a pair says that pair, and nothing else.
pub proof fn law_piece_is_read(
    piece: Seq<char>,
    before: Seq<char>,
    name: Seq<char>,
    value: Seq<char>,
    after: Seq<char>,
)
    requires
        holds_pair(piece, before, name, value, after),
    ensures
        decoded_properties(piece) == Map::<Seq<char>, Seq<char>>::empty().insert(name, value),
{
    let p = (name, value);
    let written = encoded_pair(p);
    let b64 = codec::base64_text(encode_utf8(value));
    codec::lemma_base64_chars(encode_utf8(value));
    assert(!text::white_space(written[0]));
    assert(!text::white_space(written.last())) by {
        if b64.len() > 0 {
            assert(written.last() == b64[b64.len() - 1]);
        }
    }
    text::law_trimmed_of_padded(before, written, after);
    law_pair_round_trip(p);
    text::law_trimmed_of_padded(seq![], written, seq![]);
    assert(seq![] + written + seq![] =~= written);
    assert(parsed_pair(piece) == Some(p));
    assert forall|i: int| 0 <= i < piece.len() implies piece[i] != ',' by {
        let k = i - before.len();
        if k < 0 {
            assert(text::white_space(before[i]));
        } else if k < name.len() {
            assert(piece[i] == name[k]);
        } else if k > name.len() && k < written.len() {
            assert(piece[i] == b64[k - name.len() - 1]);
        } else if k >= written.len() {
            assert(text::white_space(after[k - written.len()]));
        }
    }
    text::lemma_head_len_absent(piece, ',');
    assert(text::split_on(piece, ',') =~= seq![piece]);
    reveal_with_fuel(parsed_pairs, 2);
    assert(parsed_pairs(seq![piece]) =~= seq![p]);
    reveal_with_fuel(map_of, 2);
    assert(seq![p].drop_last() =~= seq![]);
}

/// A piece that says anything holds a pair: no equals sign, malformed base64 and bytes that are
/// not UTF-8 all say nothing.
pub proof fn law_only_pairs_are_read(piece: Seq<char>, name: Seq<char>)
    requires
        forall|i: int| 0 <= i < piece.len() ==> piece[i] != ',',
        decoded_properties(piece).contains_key(name),
    ensures
        exists|before: Seq<char>, after: Seq<char>|
            #[trigger] holds_pair(piece, before, name, decoded_properties(piece)[name], after),
{
    text::lemma_head_len_absent(piece, ',');
    assert(text::split_on(piece, ',') =~= seq![piece]);
    reveal_with_fuel(parsed_pairs, 2);
    reveal_with_fuel(map_of, 2);
    law_read_names_storable(piece, name);
    assert(seq![piece].drop_last() =~= seq![]);
    let q = parsed_pair(piece)->0;
    assert(parsed_pairs(seq![piece]) =~= seq![q]);
    assert(seq![q].drop_last() =~= seq![]);
    assert(q.0 == name && decoded_properties(piece)[name] == q.1);
    let t = text::trimmed(piece);
    let n = text::head_len(t, '=') as int;
    text::lemma_head_len_bound(t, '=');
    let b = codec::base64_bytes(t.skip(n + 1))->0;
    assert(codec::base64_text(b) == t.skip(n + 1));
    decode_utf8_encode_utf8(b);
    assert(t =~= name + seq!['='] + codec::base64_text(encode_utf8(q.1)));
    let ends = text::law_trimmed_padding(piece);
    assert(holds_pair(piece, ends.0, name, q.1, ends.1));
}

} // verus!
