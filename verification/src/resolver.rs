//! Finding the ledger's name for a name as it was read. The recognition
//! garbles letters now and then, so a name that was read is set against the
//! names that the ledger holds: one that contains it at its beginning or end
//! is taken at once, and else the most similar one, if it is similar enough.

use crate::loot::LootData;
use crate::text::{
    chars_of, ends_with, is_alphanumeric_char, is_whitespace_char, lower_text, lowercase_text,
    starts_with, text_of,
};
use vstd::prelude::*;

verus! {

/// How similar two texts are, as strsim's normalised Damerau-Levenshtein
/// measure scores them: the bit pattern of the score.
pub uninterp spec fn similarity_bits(a: Seq<char>, b: Seq<char>) -> u64;

/// `strsim::normalized_damerau_levenshtein`, its score handed back as the
/// bit pattern of the number. The score is a function of the two texts
/// alone. It lies between nought and one, both included, and for such
/// numbers the greater one has the greater bit pattern: so scores are
/// compared as integers.
#[verifier::external_body]
pub(crate) fn similarity(a: &str, b: &str) -> (bits: u64)
    ensures
        bits == similarity_bits(a@, b@),
{
    strsim::normalized_damerau_levenshtein(a, b).to_bits()
}

/// The bit pattern of six tenths: a key has to score above it to be taken
/// for the name.
pub const SIMILARITY_THRESHOLD: u64 = 0x3FE3_3333_3333_3333;

/// Whether a character counts when names are set against each other:
/// letters, numbers and whitespace do.
pub open spec fn counts(c: char) -> bool {
    is_alphanumeric_char(c) || is_whitespace_char(c)
}

/// A name with only the characters that count.
pub open spec fn cleaned(s: Seq<char>) -> Seq<char> {
    s.filter(|c: char| counts(c))
}

/// A name as names are set against each other: cleaned, and in lowercase,
/// so that neither a stray sign nor the case of a letter tells two names
/// apart.
pub open spec fn plain(s: Seq<char>) -> Seq<char> {
    lower_text(cleaned(s))
}

/// Whether the key contains the name at its beginning or at its end, both
/// made plain.
pub open spec fn contains_at_end(key: Seq<char>, name: Seq<char>) -> bool {
    plain(name).is_prefix_of(plain(key)) || plain(name).is_suffix_of(plain(key))
}

/// The score of a key for a name: the similarity of the two, made plain.
pub open spec fn score(key: Seq<char>, name: Seq<char>) -> u64 {
    similarity_bits(plain(key), plain(name))
}

/// What is known of one key when a name is set against it: whether the key
/// contains the name at its beginning or end, and the key's score.
#[derive(Clone, Copy, Debug, PartialEq, Eq, Structural)]
pub struct Hit {
    pub contained: bool,
    pub score: u64,
}

/// What is known of a key for a name.
pub open spec fn hit_of(key: Seq<char>, name: Seq<char>) -> Hit {
    Hit { contained: contains_at_end(key, name), score: score(key, name) }
}

/// What is known of each key for a name, in the order of the keys.
pub open spec fn hits_of(keys: Seq<Seq<char>>, name: Seq<char>) -> Seq<Hit> {
    keys.map_values(|k: Seq<char>| hit_of(k, name))
}

/// The first key that contains the name, or the number of keys if none does.
pub open spec fn first_containing(hits: Seq<Hit>) -> int
    decreases hits.len(),
{
    if hits.len() == 0 {
        0
    } else if hits[0].contained {
        0
    } else {
        1 + first_containing(hits.drop_first())
    }
}

/// The best key among the first `n`: the first of those with the greatest
/// score, if that score is above the threshold.
pub open spec fn best_among(hits: Seq<Hit>, n: int) -> Option<int>
    decreases n,
{
    if n <= 0 {
        None
    } else {
        let before = best_among(hits, n - 1);
        let rate = match before {
            Some(j) => hits[j].score,
            None => 0,
        };
        let s = hits[n - 1].score;
        if s > SIMILARITY_THRESHOLD && s > rate {
            Some(n - 1)
        } else {
            before
        }
    }
}

/// The key that is taken for the name: the first that contains it; else the
/// best by score; else none.
pub open spec fn picked(hits: Seq<Hit>) -> Option<int> {
    let c = first_containing(hits);
    if c < hits.len() {
        Some(c)
    } else {
        best_among(hits, hits.len() as int)
    }
}

/// The name that the ledger has for a name as read: the key that is taken
/// for it, or, where none is, the name itself, which is then new to the
/// ledger.
pub open spec fn resolved(keys: Seq<Seq<char>>, name: Seq<char>) -> Seq<char> {
    match picked(hits_of(keys, name)) {
        Some(j) => keys[j],
        None => name,
    }
}

/// The names of the records, in order.
pub open spec fn names(entries: Seq<LootData>) -> Seq<Seq<char>> {
    entries.map_values(|d: LootData| d.name@)
}

/// `first_containing` is the least place whose key contains the name.
pub proof fn lemma_first_containing(hits: Seq<Hit>)
    ensures
        0 <= first_containing(hits) <= hits.len(),
        forall|j: int| 0 <= j < first_containing(hits) ==> !(#[trigger] hits[j]).contained,
        first_containing(hits) < hits.len() ==> hits[first_containing(hits)].contained,
    decreases hits.len(),
{
    if hits.len() > 0 && !hits[0].contained {
        let rest = hits.drop_first();
        lemma_first_containing(rest);
        assert forall|j: int| 0 <= j < first_containing(hits) implies !(#[trigger] hits[j]).contained by {
            if j > 0 {
                assert(hits[j] == rest[j - 1]);
            }
        }
    }
}

/// A place before which no key contains the name, and whose key does or
/// which is the end, is `first_containing`.
pub proof fn lemma_first_containing_is(hits: Seq<Hit>, k: int)
    requires
        0 <= k <= hits.len(),
        forall|j: int| 0 <= j < k ==> !(#[trigger] hits[j]).contained,
        k < hits.len() ==> hits[k].contained,
    ensures
        first_containing(hits) == k,
{
    lemma_first_containing(hits);
    let f = first_containing(hits);
    if f < k {
        assert(!hits[f].contained);
    } else if f > k {
        assert(hits[k].contained);
    }
}

/// The best key scores above the threshold, no key among the first `n`
/// scores higher, and none before it scores as high. Where there is no best
/// key, none of them scores above the threshold.
pub proof fn lemma_best_among(hits: Seq<Hit>, n: int)
    requires
        0 <= n <= hits.len(),
    ensures
        match best_among(hits, n) {
            Some(j) => {
                &&& 0 <= j < n
                &&& hits[j].score > SIMILARITY_THRESHOLD
                &&& forall|i: int| 0 <= i < n ==> (#[trigger] hits[i]).score <= hits[j].score
                &&& forall|i: int| 0 <= i < j ==> (#[trigger] hits[i]).score < hits[j].score
            },
            None => forall|i: int| 0 <= i < n ==> (#[trigger] hits[i]).score <= SIMILARITY_THRESHOLD,
        },
    decreases n,
{
    if n > 0 {
        lemma_best_among(hits, n - 1);
    }
}

/// A name that no key resembles is new: it resolves to itself where no key
/// contains it and none scores above the threshold; and so with no key at
/// all.
pub proof fn lemma_resolved_new(keys: Seq<Seq<char>>, name: Seq<char>)
    requires
        forall|i: int| 0 <= i < keys.len() ==> !contains_at_end(#[trigger] keys[i], name),
        forall|i: int| 0 <= i < keys.len() ==> score(#[trigger] keys[i], name) <= SIMILARITY_THRESHOLD,
    ensures
        resolved(keys, name) == name,
{
    let hits = hits_of(keys, name);
    assert forall|j: int| 0 <= j < hits.len() implies !(#[trigger] hits[j]).contained by {
        assert(!contains_at_end(keys[j], name));
    }
    lemma_first_containing_is(hits, hits.len() as int);
    lemma_best_among(hits, hits.len() as int);
    match best_among(hits, hits.len() as int) {
        Some(j) => {
            assert(score(keys[j], name) <= SIMILARITY_THRESHOLD);
        },
        None => {},
    }
}

/// A name resolves to a key or to itself.
pub proof fn lemma_resolved_is_key_or_name(keys: Seq<Seq<char>>, name: Seq<char>)
    ensures
        resolved(keys, name) == name || exists|j: int|
            0 <= j < keys.len() && resolved(keys, name) == #[trigger] keys[j],
{
    let hits = hits_of(keys, name);
    lemma_first_containing(hits);
    lemma_best_among(hits, hits.len() as int);
    match picked(hits) {
        Some(j) => {
            assert(0 <= j < keys.len() && resolved(keys, name) == keys[j]);
        },
        None => {},
    }
}

/// The key that is taken for a name, from what is known of each key: the
/// first that contains the name; else the first of those with the greatest
/// score, if that score is above the threshold; else none.
pub fn pick(hits: &Vec<Hit>) -> (r: Option<usize>)
    ensures
        r is Some == picked(hits@) is Some,
        r is Some ==> r->0 == picked(hits@)->0 && r->0 < hits@.len(),
{
    let mut best: Option<usize> = None;
    let mut rate: u64 = 0;
    let mut i: usize = 0;
    while i < hits.len()
        invariant
            i <= hits.len(),
            forall|j: int| 0 <= j < i ==> !(#[trigger] hits@[j]).contained,
            best_among(hits@, i as int) == match best {
                Some(b) => Some(b as int),
                None => None,
            },
            best is Some ==> best->0 < i && rate == hits@[best->0 as int].score,
            best is None ==> rate == 0,
        decreases hits.len() - i,
    {
        let hit = hits[i];
        if hit.contained {
            proof {
                lemma_first_containing_is(hits@, i as int);
            }
            return Some(i);
        }
        if hit.score > SIMILARITY_THRESHOLD && hit.score > rate {
            best = Some(i);
            rate = hit.score;
        }
        i += 1;
    }
    proof {
        lemma_first_containing_is(hits@, hits@.len() as int);
    }
    best
}

/// The characters of `s` that count.
pub fn clean(s: &str) -> (v: Vec<char>)
    ensures
        v@ == cleaned(s@),
{
    let chars = chars_of(s);
    let mut v: Vec<char> = Vec::new();
    let mut i: usize = 0;
    let ghost pred = |c: char| counts(c);
    proof {
        reveal(Seq::filter);
        assert(chars@.take(0) =~= Seq::<char>::empty());
    }
    while i < chars.len()
        invariant
            i <= chars.len(),
            pred == (|c: char| counts(c)),
            v@ == chars@.take(i as int).filter(pred),
        decreases chars.len() - i,
    {
        let c = chars[i];
        proof {
            reveal(Seq::filter);
            let now = chars@.take(i + 1);
            assert(now.drop_last() =~= chars@.take(i as int));
            assert(now.last() == c);
        }
        if c.is_alphanumeric() || c.is_whitespace() {
            v.push(c);
        }
        i += 1;
    }
    assert(chars@.take(chars@.len() as int) =~= chars@);
    v
}

/// A name made plain: cleaned, and in lowercase.
pub fn make_plain(s: &str) -> (r: String)
    ensures
        r@ == plain(s@),
{
    let cleaned_name = clean(s);
    assert(cleaned_name@.subrange(0, cleaned_name@.len() as int) =~= cleaned_name@);
    lowercase_text(text_of(&cleaned_name, 0, cleaned_name.len()).as_str())
}

/// What is known of the key for a name, the name given plain.
fn hit(key: &str, plain_name: &str) -> (h: Hit)
    ensures
        h.contained == (plain_name@.is_prefix_of(plain(key@)) || plain_name@.is_suffix_of(
            plain(key@),
        )),
        h.score == similarity_bits(plain(key@), plain_name@),
{
    let plain_key = make_plain(key);
    let key_chars = chars_of(plain_key.as_str());
    let name_chars = chars_of(plain_name);
    let contained = starts_with(&key_chars, &name_chars) || ends_with(&key_chars, &name_chars);
    Hit { contained, score: similarity(plain_key.as_str(), plain_name) }
}

/// The name that the ledger has for `name`, the records of the ledger given
/// in its order.
pub fn resolve(name: &String, entries: &Vec<LootData>) -> (r: String)
    ensures
        r@ == resolved(names(entries@), name@),
{
    let ghost keys = names(entries@);
    let plain_name = make_plain(name.as_str());
    let mut hits: Vec<Hit> = Vec::new();
    let mut i: usize = 0;
    while i < entries.len()
        invariant
            i <= entries.len(),
            keys == names(entries@),
            keys.len() == entries@.len(),
            plain_name@ == plain(name@),
            hits@.len() == i,
            forall|j: int| 0 <= j < i ==> #[trigger] hits@[j] == hit_of(keys[j], name@),
        decreases entries.len() - i,
    {
        assert(keys[i as int] == entries@[i as int].name@);
        let h = hit(entries[i].name.as_str(), plain_name.as_str());
        hits.push(h);
        i += 1;
    }
    assert(hits@ =~= hits_of(keys, name@));
    match pick(&hits) {
        Some(b) => {
            assert(keys[b as int] == entries@[b as int].name@);
            entries[b].name.clone()
        },
        None => name.clone(),
    }
}

} // verus!
