//! Paths of executables and maps as the scanner meets them: which are
//! followed, and how they are cleaned.

use vstd::prelude::*;
use crate::text::chars_of;

verus! {

/// The infix that prelinking leaves in the path of a mapped file.
pub const PRELINK_INFIX: &'static str = ".#prelink#.";

/// What the kernel writes behind the path of a file that was deleted.
pub const DELETED_MARK: &'static str = "(deleted)";

/// Kilobytes that hold `x` bytes, rounded up.
pub fn kb(x: u64) -> (r: u64)
    ensures
        r == (x + 1023) / 1024,
{
    if x % 1024 == 0 {
        x / 1024
    } else {
        x / 1024 + 1
    }
}

/// Whether `needle` stands in `hay` at position `i`.
pub open spec fn occurs_at(hay: Seq<char>, needle: Seq<char>, i: int) -> bool {
    0 <= i && i + needle.len() <= hay.len() && hay.subrange(i, i + needle.len()) == needle
}

/// Whether `i` is the first position at which `needle` stands in `hay`.
pub open spec fn is_first_occurrence(hay: Seq<char>, needle: Seq<char>, i: int) -> bool {
    occurs_at(hay, needle, i) && forall|j: int| 0 <= j < i ==> !occurs_at(hay, needle, j)
}

/// The first position at which `needle` stands in `hay`, if it stands in
/// it at all.
pub open spec fn first_occurrence(hay: Seq<char>, needle: Seq<char>) -> Option<int> {
    if exists|i: int| is_first_occurrence(hay, needle, i) {
        Some(choose|i: int| is_first_occurrence(hay, needle, i))
    } else {
        None
    }
}

proof fn lemma_first_is(hay: Seq<char>, needle: Seq<char>, i: int)
    requires
        is_first_occurrence(hay, needle, i),
    ensures
        first_occurrence(hay, needle) == Some(i),
{
    let w = choose|w: int| is_first_occurrence(hay, needle, w);
    if w < i {
        assert(!occurs_at(hay, needle, w));
    }
    if i < w {
        assert(!occurs_at(hay, needle, i));
    }
}

proof fn lemma_no_occurrence(hay: Seq<char>, needle: Seq<char>)
    requires
        forall|j: int| 0 <= j <= hay.len() - needle.len() ==> !occurs_at(hay, needle, j),
    ensures
        first_occurrence(hay, needle) is None,
{
    if exists|i: int| is_first_occurrence(hay, needle, i) {
        let i = choose|i: int| is_first_occurrence(hay, needle, i);
        assert(occurs_at(hay, needle, i));
    }
}

/// The first position at which `needle` stands in `hay`.
pub fn find(hay: &Vec<char>, needle: &Vec<char>) -> (r: Option<usize>)
    ensures
        match r {
            Some(i) => first_occurrence(hay@, needle@) == Some(i as int) && i + needle@.len()
                <= hay@.len(),
            None => first_occurrence(hay@, needle@) is None,
        },
{
    if needle.len() > hay.len() {
        proof {
            lemma_no_occurrence(hay@, needle@);
        }
        return None;
    }
    if needle.len() == 0 {
        proof {
            assert(hay@.subrange(0, 0) =~= needle@);
            lemma_first_is(hay@, needle@, 0);
        }
        return Some(0);
    }
    let last = hay.len() - needle.len();
    let mut i: usize = 0;
    while i <= last
        invariant
            i <= last + 1,
            0 < needle@.len() <= hay@.len() <= usize::MAX,
            last == hay@.len() - needle@.len(),
            forall|j: int| 0 <= j < i ==> !occurs_at(hay@, needle@, j),
        decreases last + 1 - i,
    {
        let mut k: usize = 0;
        while k < needle.len() && hay[i + k] == needle[k]
            invariant
                i <= last,
                0 < needle@.len() <= hay@.len() <= usize::MAX,
                last == hay@.len() - needle@.len(),
                k <= needle@.len(),
                forall|m: int| 0 <= m < k ==> hay@[i + m] == needle@[m],
            decreases needle@.len() - k,
        {
            k += 1;
        }
        if k == needle.len() {
            proof {
                assert(hay@.subrange(i as int, i + needle@.len()) =~= needle@);
                lemma_first_is(hay@, needle@, i as int);
            }
            return Some(i);
        }
        proof {
            if occurs_at(hay@, needle@, i as int) {
                assert(hay@.subrange(i as int, i + needle@.len())[k as int] == needle@[k as int]);
            }
        }
        i += 1;
    }
    proof {
        lemma_no_occurrence(hay@, needle@);
    }
    None
}

/// The clean form of `path`, if it has one: a path that does not begin at
/// the root has none, nor does one that is marked as deleted; of any other
/// path it is what stands before the first prelink infix, and the whole
/// path where there is no such infix.
pub open spec fn sanitized(path: Seq<char>) -> Option<Seq<char>> {
    if path.len() == 0 || path[0] != '/' {
        None
    } else if first_occurrence(path, DELETED_MARK@) is Some {
        None
    } else {
        match first_occurrence(path, PRELINK_INFIX@) {
            Some(i) => Some(path.take(i)),
            None => Some(path),
        }
    }
}

/// The clean form of `path`, if it has one.
pub fn sanitize_file(path: &str) -> (r: Option<&str>)
    ensures
        match r {
            Some(clean) => sanitized(path@) == Some(clean@),
            None => sanitized(path@) is None,
        },
{
    let chars = chars_of(path);
    if chars.len() == 0 || chars[0] != '/' {
        return None;
    }
    if find(&chars, &chars_of(DELETED_MARK)).is_some() {
        return None;
    }
    match find(&chars, &chars_of(PRELINK_INFIX)) {
        Some(i) => {
            let clean = path.substring_char(0, i);
            assert(clean@ =~= path@.take(i as int));
            Some(clean)
        },
        None => Some(path),
    }
}

/// Whether the path `base` is a prefix of the path `path`, component by
/// component, as `std::path::Path::starts_with` decides it.
pub uninterp spec fn path_has_prefix(path: Seq<char>, base: Seq<char>) -> bool;

/// Calls `std::path::Path::starts_with`: whether `base` is a prefix of
/// `path`, where only whole components of a path match. The contract
/// gives the answer a name and claims that it depends on the two paths
/// alone.
#[verifier::external_body]
fn path_starts_with(path: &str, base: &str) -> (r: bool)
    ensures
        r == path_has_prefix(path@, base@),
{
    std::path::Path::new(path).starts_with(base)
}

/// What one prefix of the list says of a path.
#[derive(Clone, Copy, Debug, PartialEq, Eq, Structural)]
pub struct PrefixVerdict {
    /// Whether the prefix excludes what it matches.
    pub negative: bool,
    /// Whether the prefix matches the path.
    pub matched: bool,
}

/// Whether a path is followed, given what each prefix of the list says of
/// it: the last prefix that matches decides, and a path that no prefix
/// matches is followed.
pub open spec fn decided(verdicts: Seq<PrefixVerdict>) -> bool
    decreases verdicts.len(),
{
    if verdicts.len() == 0 {
        true
    } else if verdicts.last().matched {
        !verdicts.last().negative
    } else {
        decided(verdicts.drop_last())
    }
}

/// Whether a path is followed, given what each prefix of the list says of it.
pub fn decide_acceptance(verdicts: &Vec<PrefixVerdict>) -> (r: bool)
    ensures
        r == decided(verdicts@),
{
    let mut accepted = true;
    let mut i: usize = 0;
    while i < verdicts.len()
        invariant
            i <= verdicts@.len(),
            accepted == decided(verdicts@.take(i as int)),
        decreases verdicts@.len() - i,
    {
        proof {
            assert(verdicts@.take(i + 1).drop_last() =~= verdicts@.take(i as int));
            assert(verdicts@.take(i + 1).last() == verdicts@[i as int]);
        }
        if verdicts[i].matched {
            accepted = !verdicts[i].negative;
        }
        i += 1;
    }
    assert(verdicts@.take(i as int) =~= verdicts@);
    accepted
}

/// The position of the last prefix that matches, if one does.
pub open spec fn last_match(verdicts: Seq<PrefixVerdict>) -> Option<int>
    decreases verdicts.len(),
{
    if verdicts.len() == 0 {
        None
    } else if verdicts.last().matched {
        Some(verdicts.len() - 1)
    } else {
        last_match(verdicts.drop_last())
    }
}

/// `last_match` is what its name says: the prefix at the position it gives
/// matches and none behind it does; it gives no position if and only if no
/// prefix matches.
pub proof fn lemma_last_match(verdicts: Seq<PrefixVerdict>)
    ensures
        match last_match(verdicts) {
            Some(k) => 0 <= k < verdicts.len() && verdicts[k].matched && forall|j: int|
                k < j < verdicts.len() ==> !(#[trigger] verdicts[j]).matched,
            None => forall|j: int| 0 <= j < verdicts.len() ==> !(#[trigger] verdicts[j]).matched,
        },
    decreases verdicts.len(),
{
    if verdicts.len() > 0 && !verdicts.last().matched {
        let rest = verdicts.drop_last();
        lemma_last_match(rest);
        match last_match(rest) {
            Some(k) => {
                assert(rest[k] == verdicts[k]);
                assert forall|j: int| k < j < verdicts.len() implies !(
                #[trigger] verdicts[j]).matched by {
                    if j < rest.len() {
                        assert(rest[j] == verdicts[j]);
                    }
                }
            },
            None => {
                assert forall|j: int| 0 <= j < verdicts.len() implies !(
                #[trigger] verdicts[j]).matched by {
                    if j < rest.len() {
                        assert(rest[j] == verdicts[j]);
                    }
                }
            },
        }
    }
}

/// A path is followed if and only if the last prefix that matches it is
/// positive; a path that no prefix matches is followed.
pub proof fn lemma_last_match_decides(verdicts: Seq<PrefixVerdict>)
    ensures
        decided(verdicts) == (match last_match(verdicts) {
            Some(k) => !verdicts[k].negative,
            None => true,
        }),
    decreases verdicts.len(),
{
    if verdicts.len() > 0 && !verdicts.last().matched {
        let rest = verdicts.drop_last();
        lemma_last_match_decides(rest);
        lemma_last_match(rest);
        if last_match(rest) is Some {
            assert(rest[last_match(rest)->0] == verdicts[last_match(rest)->0]);
        }
    }
}

/// The first position of an exclamation mark in `prefix`, if it has one.
pub open spec fn first_bang(prefix: Seq<char>) -> Option<int> {
    first_occurrence(prefix, seq!['!'])
}

/// What a negative prefix excludes: what stands behind the first
/// exclamation mark of `prefix`. A prefix without an exclamation mark is
/// positive.
pub open spec fn negated(prefix: Seq<char>) -> Option<Seq<char>> {
    match first_bang(prefix) {
        Some(i) => Some(prefix.skip(i + 1)),
        None => None,
    }
}

/// What the prefix `prefix` says of the path `path`.
pub open spec fn verdict_of(path: Seq<char>, prefix: Seq<char>) -> PrefixVerdict {
    match negated(prefix) {
        Some(base) => PrefixVerdict { negative: true, matched: path_has_prefix(path, base) },
        None => PrefixVerdict { negative: false, matched: path_has_prefix(path, prefix) },
    }
}

/// Whether the path `path` is followed under the prefixes `prefixes`.
pub open spec fn accepts(path: Seq<char>, prefixes: Seq<&str>) -> bool {
    decided(prefixes.map_values(|p: &str| verdict_of(path, p@)))
}

/// What the prefix `prefix` says of the path `path`.
pub fn judge(path: &str, prefix: &str) -> (r: PrefixVerdict)
    ensures
        r == verdict_of(path@, prefix@),
{
    let chars = chars_of(prefix);
    let mut bang: Vec<char> = Vec::new();
    bang.push('!');
    assert(bang@ =~= seq!['!']);
    match find(&chars, &bang) {
        Some(i) => {
            let end = chars.len();
            assert(bang@.len() == 1);
            let base = prefix.substring_char(i + 1, end);
            assert(base@ =~= prefix@.skip(i + 1));
            let matched = path_starts_with(path, base);
            PrefixVerdict { negative: true, matched }
        },
        None => PrefixVerdict { negative: false, matched: path_starts_with(path, prefix) },
    }
}

/// Whether the executable or map at `path` is followed under the prefixes
/// `exeprefixes`. A prefix with an exclamation mark excludes the paths
/// under what stands behind the mark; any other prefix includes the paths
/// under it. The last prefix of the list that matches decides, so the list
/// is to be sorted; a path that no prefix matches is followed.
pub fn accept_file(path: &str, exeprefixes: &[&str]) -> (r: bool)
    ensures
        r == accepts(path@, exeprefixes@),
{
    let ghost wanted = exeprefixes@.map_values(|p: &str| verdict_of(path@, p@));
    let mut verdicts: Vec<PrefixVerdict> = Vec::new();
    let mut i: usize = 0;
    while i < exeprefixes.len()
        invariant
            i <= exeprefixes@.len(),
            wanted == exeprefixes@.map_values(|p: &str| verdict_of(path@, p@)),
            verdicts@.len() == i,
            forall|k: int| 0 <= k < i ==> verdicts@[k] == wanted[k],
        decreases exeprefixes@.len() - i,
    {
        verdicts.push(judge(path, exeprefixes[i]));
        i += 1;
    }
    assert(verdicts@ =~= wanted);
    decide_acceptance(&verdicts)
}

/// Whether the path `a` comes before the path `b` in the order of paths,
/// as `<` of `std::path::Path` decides it.
pub uninterp spec fn path_before(a: Seq<char>, b: Seq<char>) -> bool;

/// Calls `<` of `std::path::Path`, which compares two paths component by
/// component. The contract gives the answer a name and claims that it
/// depends on the two paths alone.
#[verifier::external_body]
fn path_lt(a: &str, b: &str) -> (r: bool)
    ensures
        r == path_before(a@, b@),
{
    std::path::Path::new(a) < std::path::Path::new(b)
}

/// Number of flags that are set.
pub open spec fn count_set(flags: Seq<bool>) -> nat
    decreases flags.len(),
{
    if flags.len() == 0 {
        0
    } else {
        count_set(flags.drop_last()) + (if flags.last() {
            1nat
        } else {
            0nat
        })
    }
}

/// For each of `paths`, whether it comes before the path at position `i`.
pub open spec fn earlier_than(paths: Seq<Seq<char>>, i: int) -> Seq<bool> {
    Seq::new(paths.len(), |j: int| path_before(paths[j], paths[i]))
}

/// The rank of the path at position `i` among `paths`: the number of
/// paths that come before it. Paths are in the order of paths when they
/// are in the order of their ranks, and equal paths have equal ranks.
pub open spec fn rank_of(paths: Seq<Seq<char>>, i: int) -> nat {
    count_set(earlier_than(paths, i))
}

/// The rank of a path, given for each path of the list whether it comes
/// before that path: the number of those that do.
pub fn rank_from(earlier: &Vec<bool>) -> (r: usize)
    ensures
        r == count_set(earlier@),
{
    let mut r: usize = 0;
    let mut j: usize = 0;
    while j < earlier.len()
        invariant
            j <= earlier@.len(),
            r == count_set(earlier@.take(j as int)),
            r <= j,
        decreases earlier@.len() - j,
    {
        proof {
            assert(earlier@.take(j + 1).drop_last() =~= earlier@.take(j as int));
            assert(earlier@.take(j + 1).last() == earlier@[j as int]);
        }
        if earlier[j] {
            r += 1;
        }
        j += 1;
    }
    assert(earlier@.take(j as int) =~= earlier@);
    r
}

/// What a list of paths stands for.
pub open spec fn path_views(paths: Seq<String>) -> Seq<Seq<char>> {
    paths.map_values(|p: String| p@)
}

/// The rank of each of `paths` among them.
pub fn path_ranks(paths: &Vec<String>) -> (r: Vec<usize>)
    ensures
        r@.len() == paths@.len(),
        forall|i: int| 0 <= i < r@.len() ==> r@[i] == rank_of(path_views(paths@), i),
{
    let ghost views = path_views(paths@);
    let mut r: Vec<usize> = Vec::new();
    let mut i: usize = 0;
    while i < paths.len()
        invariant
            i <= paths@.len(),
            views == path_views(paths@),
            r@.len() == i,
            forall|k: int| 0 <= k < i ==> r@[k] == rank_of(views, k),
        decreases paths@.len() - i,
    {
        let mut earlier: Vec<bool> = Vec::new();
        let mut j: usize = 0;
        while j < paths.len()
            invariant
                i < paths@.len(),
                j <= paths@.len(),
                views == path_views(paths@),
                earlier@.len() == j,
                forall|k: int| 0 <= k < j ==> earlier@[k] == path_before(views[k], views[i as int]),
            decreases paths@.len() - j,
        {
            earlier.push(path_lt(paths[j].as_str(), paths[i].as_str()));
            j += 1;
        }
        assert(earlier@ =~= earlier_than(views, i as int));
        r.push(rank_from(&earlier));
        i += 1;
    }
    r
}

} // verus!
