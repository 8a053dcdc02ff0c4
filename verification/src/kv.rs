//! `key=value` tokens of the command line.

use vstd::prelude::*;
use vstd::string::StringExecFns;
use vstd::std_specs::iter::IteratorSpec;

verus! {

/// The character that parts a key from its value.
pub open spec fn separator() -> char {
    '='
}

/// `s` is `k`, one separator, and `v`, where the separator is the first one
/// in `s` and neither side is empty.
pub open spec fn splits_as(s: Seq<char>, k: Seq<char>, v: Seq<char>) -> bool {
    &&& s == k + seq![separator()] + v
    &&& !k.contains(separator())
    &&& k.len() > 0
    &&& v.len() > 0
}

/// `s` can be read as a pair.
pub open spec fn is_pair(s: Seq<char>) -> bool {
    exists|k: Seq<char>, v: Seq<char>| splits_as(s, k, v)
}

/// One `key=value` argument.
#[derive(Debug, Clone, PartialEq, Eq)]
pub struct KVPair {
    pub k: String,
    pub v: String,
}

impl View for KVPair {
    type V = (Seq<char>, Seq<char>);

    open spec fn view(&self) -> (Seq<char>, Seq<char>) {
        (self.k@, self.v@)
    }
}

/// A token that is no pair.
#[derive(Debug, PartialEq, Eq)]
pub struct KVError {
    /// The token as it was given.
    pub input: String,
}

impl KVError {
    /// The words in which the failure is reported.
    pub fn message(&self) -> (r: String)
        ensures
            r@ == "Failed to parse "@ + self.input@,
    {
        let mut r = "Failed to parse ".to_owned();
        r.append(self.input.as_str());
        r
    }
}

/// Index of the first separator in `s`, or the length of `s` if it has none.
fn find_separator(s: &str) -> (i: usize)
    ensures
        i <= s@.len(),
        forall|j: int| 0 <= j < i ==> s@[j] != separator(),
        i < s@.len() ==> s@[i as int] == separator(),
{
    broadcast use vstd::string::group_string_axioms;

    let n = s.unicode_len();
    let mut i: usize = 0;
    let mut rest = s.chars();
    while i < n
        invariant
            n == s@.len(),
            i <= n,
            rest.remaining() == s@.skip(i as int),
            forall|j: int| 0 <= j < i ==> s@[j] != separator(),
        decreases n - i,
    {
        let c = rest.next();
        if c == Some('=') {
            return i;
        }
        assert(s@.skip(i as int).drop_first() =~= s@.skip(i + 1));
        i += 1;
    }
    i
}

impl KVPair {
    /// Reads a token as a pair: the key is what stands before the first `=`,
    /// the value is all that follows it. A token without `=`, or with nothing
    /// on one side of it, is refused.
    pub fn from_str(s: &str) -> (r: Result<KVPair, KVError>)
        ensures
            r is Ok <==> is_pair(s@),
            r matches Ok(p) ==> splits_as(s@, p.k@, p.v@),
            r matches Err(e) ==> e.input@ == s@,
    {
        let n = s.unicode_len();
        let i = find_separator(s);
        if 0 < i && i < n && i + 1 < n {
            let k = s.substring_char(0, i);
            let v = s.substring_char(i + 1, n);
            assert(s@ =~= k@ + seq![separator()] + v@);
            assert(splits_as(s@, k@, v@));
            Ok(KVPair { k: k.to_owned(), v: v.to_owned() })
        } else {
            proof {
                assert forall|k: Seq<char>, v: Seq<char>| !splits_as(s@, k, v) by {
                    if splits_as(s@, k, v) {
                        lemma_split_at_first(s@, k, v, i as int);
                    }
                }
            }
            Err(KVError { input: s.to_owned() })
        }
    }
}

/// In a pair the key ends at the first separator of the token.
proof fn lemma_split_at_first(s: Seq<char>, k: Seq<char>, v: Seq<char>, i: int)
    requires
        splits_as(s, k, v),
        0 <= i <= s.len(),
        forall|j: int| 0 <= j < i ==> s[j] != separator(),
        i < s.len() ==> s[i] == separator(),
    ensures
        i == k.len(),
        k == s.subrange(0, i),
        v == s.subrange(i + 1, s.len() as int),
{
    let m = k.len() as int;
    assert(s[m] == separator());
    if i < m {
        assert(k[i] == s[i]);
        assert(k.contains(separator()));
    }
    assert(k =~= s.subrange(0, i));
    assert(v =~= s.subrange(i + 1, s.len() as int));
}

/// A token can be read as a pair in one way only.
pub proof fn lemma_split_unique(
    s: Seq<char>,
    k1: Seq<char>,
    v1: Seq<char>,
    k2: Seq<char>,
    v2: Seq<char>,
)
    requires
        splits_as(s, k1, v1),
        splits_as(s, k2, v2),
    ensures
        k1 == k2,
        v1 == v2,
{
    let i = k1.len() as int;
    assert forall|j: int| 0 <= j < i implies s[j] != separator() by {
        assert(s[j] == k1[j]);
        assert(k1.contains(k1[j]));
    }
    assert(s[i] == separator());
    lemma_split_at_first(s, k1, v1, i);
    lemma_split_at_first(s, k2, v2, i);
}

/// Reads one command-line token as a pair.
pub fn parse_kv_pair(s: &str) -> (r: Result<KVPair, KVError>)
    ensures
        r is Ok <==> is_pair(s@),
        r matches Ok(p) ==> splits_as(s@, p.k@, p.v@),
        r matches Err(e) ==> e.input@ == s@,
{
    KVPair::from_str(s)
}

} // verus!
