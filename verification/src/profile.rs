//! Circuit profiles (which circuit, for how many players) and the names of
//! the proving-key files that carry them.

use vstd::prelude::*;
use vstd::string::{StrSliceExecFns, StringExecFns};
use crate::batch::ProofTypeKey;
use crate::text::{decimal, lemma_decimal_reads_back, parse_usize, parse_usize_spec, starts_with, usize_to_decimal};

verus! {

#[derive(Debug, Clone, Copy, PartialEq, Eq, Structural, Hash)]
pub enum CircuitProfile {
    RoleAssignment { player_count: usize, werewolf_count: usize },
    Divination { player_count: usize },
    AnonymousVoting { player_count: usize },
    WinningJudge { player_count: usize },
    KeyPublicize { player_count: usize },
}

/// How many werewolves a role assignment for `n` players has by default.
pub open spec fn default_werewolves(n: usize) -> usize {
    if n <= 6 {
        1
    } else if n <= 9 {
        2
    } else {
        3
    }
}

pub fn default_werewolf_count_for_player_count(player_count: usize) -> (r: usize)
    ensures
        r == default_werewolves(player_count),
        player_count <= 6 ==> r == 1,
        7 <= player_count <= 9 ==> r == 2,
        player_count >= 10 ==> r == 3,
{
    if player_count <= 6 {
        1
    } else if player_count <= 9 {
        2
    } else {
        3
    }
}

/// The index of the first occurrence of `p` in `s`, or -1.
pub open spec fn find_first(s: Seq<char>, p: Seq<char>) -> int
    decreases s.len(),
{
    if s.len() < p.len() {
        -1
    } else if s.take(p.len() as int) == p {
        0
    } else if s.len() == 0 {
        -1
    } else {
        let k = find_first(s.drop_first(), p);
        if k < 0 {
            -1
        } else {
            k + 1
        }
    }
}

pub proof fn lemma_find_first(s: Seq<char>, p: Seq<char>)
    ensures
        -1 <= find_first(s, p),
        find_first(s, p) >= 0 ==> find_first(s, p) <= s.len() - p.len(),
        find_first(s, p) >= 0 ==> s.subrange(find_first(s, p), find_first(s, p) + p.len()) == p,
    decreases s.len(),
{
    if s.len() >= p.len() && s.take(p.len() as int) != p && s.len() > 0 {
        lemma_find_first(s.drop_first(), p);
        let k = find_first(s.drop_first(), p);
        if k >= 0 {
            assert(s.subrange(k + 1, k + 1 + p.len()) =~= s.drop_first().subrange(k, k + p.len()));
        }
    } else if s.len() >= p.len() && s.take(p.len() as int) == p {
        assert(s.subrange(0, p.len() as int) =~= s.take(p.len() as int));
    }
}

/// `str::split_once(s, p)`: the text before and after the first `p`.
pub open spec fn split_once_spec(s: Seq<char>, p: Seq<char>) -> Option<(Seq<char>, Seq<char>)> {
    let k = find_first(s, p);
    if k < 0 {
        None
    } else {
        Some((s.take(k), s.skip(k + p.len())))
    }
}

/// `str::strip_prefix`.
pub open spec fn strip_prefix_spec(s: Seq<char>, p: Seq<char>) -> Option<Seq<char>> {
    if p.len() <= s.len() && s.take(p.len() as int) == p {
        Some(s.skip(p.len() as int))
    } else {
        None
    }
}

/// `str::strip_suffix`.
pub open spec fn strip_suffix_spec(s: Seq<char>, p: Seq<char>) -> Option<Seq<char>> {
    if p.len() <= s.len() && s.skip(s.len() - p.len()) == p {
        Some(s.take(s.len() - p.len()))
    } else {
        None
    }
}

pub fn strip_prefix<'a>(s: &'a str, p: &str) -> (r: Option<&'a str>)
    ensures
        match r {
            Some(t) => strip_prefix_spec(s@, p@) == Some(t@),
            None => strip_prefix_spec(s@, p@) is None,
        },
{
    if starts_with(s, p) {
        let n = s.unicode_len();
        let m = p.unicode_len();
        let t = s.substring_char(m, n);
        assert(t@ =~= s@.skip(m as int));
        Some(t)
    } else {
        None
    }
}

pub fn strip_suffix<'a>(s: &'a str, p: &str) -> (r: Option<&'a str>)
    ensures
        match r {
            Some(t) => strip_suffix_spec(s@, p@) == Some(t@),
            None => strip_suffix_spec(s@, p@) is None,
        },
{
    let n = s.unicode_len();
    let m = p.unicode_len();
    if m > n {
        return None;
    }
    let tail = s.substring_char(n - m, n);
    if crate::support::str_eq(tail, p) {
        let t = s.substring_char(0, n - m);
        assert(t@ =~= s@.take(n - m));
        assert(tail@ =~= s@.skip(n - m));
        Some(t)
    } else {
        assert(tail@ =~= s@.skip(n - m));
        None
    }
}

/// `p` occurs in `s` at `k`.
pub open spec fn occurs(s: Seq<char>, p: Seq<char>, k: int) -> bool {
    s.subrange(k, k + p.len()) == p
}

/// Whether `p` occurs in `s` at `i`.
fn occurs_at(s: &str, p: &str, i: usize) -> (r: bool)
    requires
        i + p@.len() <= s@.len(),
        s@.len() <= usize::MAX,
    ensures
        r == (s@.subrange(i as int, i + p@.len()) == p@),
{
    let m = p.unicode_len();
    let mut j: usize = 0;
    while j < m
        invariant
            m == p@.len(),
            i + m <= s@.len(),
            s@.len() <= usize::MAX,
            j <= m,
            forall|k: int| 0 <= k < j ==> s@[i + k] == p@[k],
        decreases m - j,
    {
        if s.get_char(i + j) != p.get_char(j) {
            assert(s@.subrange(i as int, i + m)[j as int] != p@[j as int]);
            return false;
        }
        j += 1;
    }
    assert(s@.subrange(i as int, i + m) =~= p@);
    true
}

proof fn lemma_find_first_at(s: Seq<char>, p: Seq<char>, i: int)
    requires
        0 <= i,
        i + p.len() <= s.len(),
        forall|k: int| 0 <= k < i ==> !#[trigger] occurs(s, p, k),
        occurs(s, p, i),
    ensures
        find_first(s, p) == i,
    decreases i,
{
    if i == 0 {
        assert(s.take(p.len() as int) =~= s.subrange(0, p.len() as int));
    } else {
        assert(s.take(p.len() as int) =~= s.subrange(0, p.len() as int));
        assert(!occurs(s, p, 0));
        assert forall|k: int| 0 <= k < i - 1 implies !#[trigger] occurs(s.drop_first(), p, k) by {
            assert(s.drop_first().subrange(k, k + p.len()) =~= s.subrange(k + 1, k + 1 + p.len()));
            assert(!occurs(s, p, k + 1));
        }
        assert(s.drop_first().subrange(i - 1, i - 1 + p.len()) =~= s.subrange(i, i + p.len()));
        lemma_find_first_at(s.drop_first(), p, i - 1);
    }
}

proof fn lemma_find_first_none(s: Seq<char>, p: Seq<char>)
    requires
        forall|k: int| 0 <= k && k + p.len() <= s.len() ==> !#[trigger] occurs(s, p, k),
    ensures
        find_first(s, p) == -1,
    decreases s.len(),
{
    if s.len() >= p.len() {
        assert(s.take(p.len() as int) =~= s.subrange(0, p.len() as int));
        assert(!occurs(s, p, 0));
        if s.len() > 0 {
            assert forall|k: int| 0 <= k && k + p.len() <= s.drop_first().len() implies !#[trigger] occurs(
                s.drop_first(),
                p,
                k,
            ) by {
                assert(s.drop_first().subrange(k, k + p.len()) =~= s.subrange(k + 1, k + 1 + p.len()));
                assert(!occurs(s, p, k + 1));
            }
            assert(!occurs(s, p, 0));
            lemma_find_first_none(s.drop_first(), p);
        }
    }
}

/// `str::split_once`.
pub fn split_once<'a>(s: &'a str, p: &str) -> (r: Option<(&'a str, &'a str)>)
    ensures
        match r {
            Some((a, b)) => split_once_spec(s@, p@) == Some((a@, b@)),
            None => split_once_spec(s@, p@) is None,
        },
{
    let n = s.unicode_len();
    let m = p.unicode_len();
    if m > n {
        proof {
            lemma_find_first_none(s@, p@);
        }
        return None;
    }
    let last = n - m;
    let mut i: usize = 0;
    loop
        invariant
            n == s@.len(),
            m == p@.len(),
            m <= n,
            last == n - m,
            i <= last,
            forall|k: int| 0 <= k < i ==> !#[trigger] occurs(s@, p@, k),
        ensures
            forall|k: int| 0 <= k <= last ==> !#[trigger] occurs(s@, p@, k),
        decreases last - i,
    {
        if occurs_at(s, p, i) {
            proof {
                lemma_find_first_at(s@, p@, i as int);
            }
            let a = s.substring_char(0, i);
            let b = s.substring_char(i + m, n);
            assert(a@ =~= s@.take(i as int));
            assert(b@ =~= s@.skip(i + m));
            return Some((a, b));
        }
        if i == last {
            break;
        }
        i += 1;
    }
    proof {
        lemma_find_first_none(s@, p@);
    }
    None
}

/// The player count in a file-name stem `<prefix>_n<count>_v...` or
/// `<prefix>_max<count>_v...`.
pub open spec fn single_count_spec(stem: Seq<char>, prefix: Seq<char>) -> Option<usize> {
    match strip_prefix_spec(stem, prefix + "_n"@) {
        Some(rest) => match split_once_spec(rest, "_v"@) {
            Some((players, _)) => parse_usize_spec(vstd::utf8::encode_utf8(players)),
            None => None,
        },
        None => match strip_prefix_spec(stem, prefix + "_max"@) {
            Some(rest) => match split_once_spec(rest, "_v"@) {
                Some((players, _)) => parse_usize_spec(vstd::utf8::encode_utf8(players)),
                None => None,
            },
            None => None,
        },
    }
}

pub fn parse_single_count_profile(stem: &str, prefix: &str) -> (r: Option<usize>)
    ensures
        r == single_count_spec(stem@, prefix@),
{
    let with_n = prefix.to_owned().concat("_n");
    match strip_prefix(stem, with_n.as_str()) {
        Some(rest) => {
            return match split_once(rest, "_v") {
                Some((players, _)) => parse_usize(players),
                None => None,
            };
        },
        None => {},
    }
    let with_max = prefix.to_owned().concat("_max");
    match strip_prefix(stem, with_max.as_str()) {
        Some(rest) => match split_once(rest, "_v") {
            Some((players, _)) => parse_usize(players),
            None => None,
        },
        None => None,
    }
}

pub open spec fn count_of(t: Seq<char>) -> Option<usize> {
    parse_usize_spec(vstd::utf8::encode_utf8(t))
}

/// The profile a proving-key file name stands for.
pub open spec fn profile_of_file(name: Seq<char>) -> Option<CircuitProfile> {
    match strip_suffix_spec(name, ".pk"@) {
        None => None,
        Some(stem) => match strip_prefix_spec(stem, "role_assignment_n"@) {
            Some(rest) => match split_once_spec(rest, "_w"@) {
                Some((players, tail)) => match split_once_spec(tail, "_v"@) {
                    Some((wolves, _)) => match (count_of(players), count_of(wolves)) {
                        (Some(p), Some(w)) => Some(
                            CircuitProfile::RoleAssignment { player_count: p, werewolf_count: w },
                        ),
                        _ => None,
                    },
                    None => None,
                },
                None => None,
            },
            None => match strip_prefix_spec(stem, "role_assignment_max"@) {
                Some(rest) => match split_once_spec(rest, "_v"@) {
                    Some((players, _)) => match count_of(players) {
                        Some(p) => Some(
                            CircuitProfile::RoleAssignment {
                                player_count: p,
                                werewolf_count: default_werewolves(p),
                            },
                        ),
                        None => None,
                    },
                    None => None,
                },
                None => match single_count_spec(stem, "divination"@) {
                    Some(p) => Some(CircuitProfile::Divination { player_count: p }),
                    None => match single_count_spec(stem, "anonymous_voting"@) {
                        Some(p) => Some(CircuitProfile::AnonymousVoting { player_count: p }),
                        None => match single_count_spec(stem, "winning_judgement"@) {
                            Some(p) => Some(CircuitProfile::WinningJudge { player_count: p }),
                            None => match single_count_spec(stem, "key_publicize"@) {
                                Some(p) => Some(CircuitProfile::KeyPublicize { player_count: p }),
                                None => None,
                            },
                        },
                    },
                },
            },
        },
    }
}

/// The profile a proving-key file name stands for, as
/// `role_assignment_n<p>_w<w>_v…`, `role_assignment_max<p>_v…` (default
/// werewolves), or `<circuit>_n<p>_v…` / `<circuit>_max<p>_v…`, ending `.pk`.
pub fn parse_profile_from_pk_filename(file_name: &str) -> (r: Option<CircuitProfile>)
    ensures
        r == profile_of_file(file_name@),
{
    let stem = match strip_suffix(file_name, ".pk") {
        Some(s) => s,
        None => return None,
    };
    match strip_prefix(stem, "role_assignment_n") {
        Some(rest) => {
            let (players, tail) = match split_once(rest, "_w") {
                Some(x) => x,
                None => return None,
            };
            let (wolves, _) = match split_once(tail, "_v") {
                Some(x) => x,
                None => return None,
            };
            let p = match parse_usize(players) {
                Some(p) => p,
                None => return None,
            };
            let w = match parse_usize(wolves) {
                Some(w) => w,
                None => return None,
            };
            return Some(CircuitProfile::RoleAssignment { player_count: p, werewolf_count: w });
        },
        None => {},
    }
    match strip_prefix(stem, "role_assignment_max") {
        Some(rest) => {
            let (players, _) = match split_once(rest, "_v") {
                Some(x) => x,
                None => return None,
            };
            let p = match parse_usize(players) {
                Some(p) => p,
                None => return None,
            };
            return Some(
                CircuitProfile::RoleAssignment {
                    player_count: p,
                    werewolf_count: default_werewolf_count_for_player_count(p),
                },
            );
        },
        None => {},
    }
    match parse_single_count_profile(stem, "divination") {
        Some(p) => return Some(CircuitProfile::Divination { player_count: p }),
        None => {},
    }
    match parse_single_count_profile(stem, "anonymous_voting") {
        Some(p) => return Some(CircuitProfile::AnonymousVoting { player_count: p }),
        None => {},
    }
    match parse_single_count_profile(stem, "winning_judgement") {
        Some(p) => return Some(CircuitProfile::WinningJudge { player_count: p }),
        None => {},
    }
    match parse_single_count_profile(stem, "key_publicize") {
        Some(p) => Some(CircuitProfile::KeyPublicize { player_count: p }),
        None => None,
    }
}

/// The name of a profile, as in its key file.
pub open spec fn profile_label(p: CircuitProfile) -> Seq<char> {
    match p {
        CircuitProfile::RoleAssignment { player_count, werewolf_count } => "role_assignment_n"@
            + decimal(player_count as nat) + "_w"@ + decimal(werewolf_count as nat),
        CircuitProfile::Divination { player_count } => "divination_n"@ + decimal(player_count as nat),
        CircuitProfile::AnonymousVoting { player_count } => "anonymous_voting_n"@ + decimal(
            player_count as nat,
        ),
        CircuitProfile::WinningJudge { player_count } => "winning_judgement_n"@ + decimal(
            player_count as nat,
        ),
        CircuitProfile::KeyPublicize { player_count } => "key_publicize_n"@ + decimal(
            player_count as nat,
        ),
    }
}

pub fn circuit_profile_label(p: CircuitProfile) -> (s: String)
    ensures
        s@ == profile_label(p),
{
    match p {
        CircuitProfile::RoleAssignment { player_count, werewolf_count } => "role_assignment_n".to_owned().concat(
            usize_to_decimal(player_count).as_str(),
        ).concat("_w").concat(usize_to_decimal(werewolf_count).as_str()),
        CircuitProfile::Divination { player_count } => "divination_n".to_owned().concat(
            usize_to_decimal(player_count).as_str(),
        ),
        CircuitProfile::AnonymousVoting { player_count } => "anonymous_voting_n".to_owned().concat(
            usize_to_decimal(player_count).as_str(),
        ),
        CircuitProfile::WinningJudge { player_count } => "winning_judgement_n".to_owned().concat(
            usize_to_decimal(player_count).as_str(),
        ),
        CircuitProfile::KeyPublicize { player_count } => "key_publicize_n".to_owned().concat(
            usize_to_decimal(player_count).as_str(),
        ),
    }
}

/// Which Groth16 setup a node proves a circuit with.
#[derive(Debug, Clone, Copy, PartialEq, Eq, Structural)]
pub enum SetupChoice {
    /// The setup loaded for this profile.
    Profile(CircuitProfile),
    /// The setup loaded for this kind of circuit, whatever its size.
    Kind(ProofTypeKey),
}

/// The setups a node has loaded: one per profile, and fallbacks per kind.
pub struct CircuitGroth16Setups {
    pub by_profile: Vec<CircuitProfile>,
    pub fallback_kinds: Vec<ProofTypeKey>,
}

impl CircuitGroth16Setups {
    /// The setup for a circuit of kind `kind` whose profile is `profile`,
    /// where known: the profile's own setup, never a fallback for another
    /// size; without a profile, the kind's fallback. None when not loaded.
    pub fn for_circuit(&self, profile: Option<CircuitProfile>, kind: ProofTypeKey) -> (r: Option<SetupChoice>)
        ensures
            profile is Some && self.by_profile@.contains(profile->Some_0) ==> r == Some(
                SetupChoice::Profile(profile->Some_0),
            ),
            profile is Some && !self.by_profile@.contains(profile->Some_0) ==> r is None,
            profile is None && self.fallback_kinds@.contains(kind) ==> r == Some(SetupChoice::Kind(kind)),
            profile is None && !self.fallback_kinds@.contains(kind) ==> r is None,
    {
        match profile {
            Some(p) => {
                let n = self.by_profile.len();
                let mut i: usize = 0;
                while i < n
                    invariant
                        n == self.by_profile@.len(),
                        profile == Some(p),
                        i <= n,
                        forall|k: int| 0 <= k < i ==> self.by_profile@[k] != p,
                    decreases n - i,
                {
                    if self.by_profile[i] == p {
                        return Some(SetupChoice::Profile(p));
                    }
                    i += 1;
                }
                None
            },
            None => {
                let n = self.fallback_kinds.len();
                let mut i: usize = 0;
                while i < n
                    invariant
                        n == self.fallback_kinds@.len(),
                        profile is None,
                        i <= n,
                        forall|k: int| 0 <= k < i ==> self.fallback_kinds@[k] != kind,
                    decreases n - i,
                {
                    if self.fallback_kinds[i] == kind {
                        return Some(SetupChoice::Kind(kind));
                    }
                    i += 1;
                }
                None
            },
        }
    }
}

} // verus!

verus! {

/// The first `p` in `a + p + r` starts right after `a`, when no character
/// of `a` is the first one of `p`.
proof fn lemma_find_after(a: Seq<char>, p: Seq<char>, r: Seq<char>)
    requires
        p.len() > 0,
        forall|i: int| 0 <= i < a.len() ==> #[trigger] a[i] != p[0],
    ensures
        find_first(a + p + r, p) == a.len(),
    decreases a.len(),
{
    let s = a + p + r;
    if a.len() == 0 {
        assert(s.take(p.len() as int) =~= p);
    } else {
        assert(s.take(p.len() as int)[0] == a[0]);
        assert(s.take(p.len() as int) != p);
        assert(s.drop_first() =~= a.drop_first() + p + r);
        assert forall|i: int| 0 <= i < a.drop_first().len() implies #[trigger] a.drop_first()[i] != p[0] by {
            assert(a.drop_first()[i] == a[i + 1]);
        }
        lemma_find_after(a.drop_first(), p, r);
    }
}

/// Splitting the decimal text of `n`, then `p` (starting with `_`), then
/// `r` at `p` gives the two texts back.
proof fn lemma_split_after_count(n: usize, p: Seq<char>, r: Seq<char>)
    requires
        p.len() > 0,
        p[0] == '_',
    ensures
        split_once_spec(decimal(n as nat) + p + r, p) == Some((decimal(n as nat), r)),
        count_of(decimal(n as nat)) == Some(n),
{
    let a = decimal(n as nat);
    lemma_decimal_reads_back(n);
    assert forall|i: int| 0 <= i < a.len() implies #[trigger] a[i] != p[0] by {
        assert(48 <= a[i] as u32 <= 57);
        assert('_' as u32 == 95);
    }
    lemma_find_after(a, p, r);
    assert((a + p + r).take(a.len() as int) =~= a);
    assert((a + p + r).skip((a.len() + p.len()) as int) =~= r);
}

/// `x + y` starts with `x`.
proof fn lemma_strip_prefix_concat(x: Seq<char>, y: Seq<char>)
    ensures
        strip_prefix_spec(x + y, x) == Some(y),
{
    assert((x + y).take(x.len() as int) =~= x);
    assert((x + y).skip(x.len() as int) =~= y);
}

/// A text does not start with a prefix whose first character differs.
proof fn lemma_prefix_mismatch(s: Seq<char>, q: Seq<char>)
    requires
        s.len() > 0,
        q.len() > 0,
        s[0] != q[0],
    ensures
        strip_prefix_spec(s, q) is None,
{
    if q.len() <= s.len() && s.take(q.len() as int) == q {
        assert(s.take(q.len() as int)[0] == s[0]);
    }
}

/// The count of a single-count circuit's stem `name_n<p>_v<version>`.
proof fn lemma_single_count(name: Seq<char>, p: usize, version: Seq<char>)
    ensures
        single_count_spec(name + "_n"@ + decimal(p as nat) + "_v"@ + version, name) == Some(p),
{
    reveal_strlit("_n");
    reveal_strlit("_v");
    let stem = name + "_n"@ + decimal(p as nat) + "_v"@ + version;
    assert(stem =~= (name + "_n"@) + (decimal(p as nat) + "_v"@ + version));
    lemma_strip_prefix_concat(name + "_n"@, decimal(p as nat) + "_v"@ + version);
    lemma_split_after_count(p, "_v"@, version);
}

/// The count of a single-count stem of another circuit is not read.
proof fn lemma_single_count_other(stem: Seq<char>, name: Seq<char>)
    requires
        stem.len() > 0,
        name.len() > 0,
        stem[0] != name[0],
    ensures
        single_count_spec(stem, name) is None,
{
    reveal_strlit("_n");
    reveal_strlit("_max");
    assert((name + "_n"@)[0] == name[0]);
    assert((name + "_max"@)[0] == name[0]);
    lemma_prefix_mismatch(stem, name + "_n"@);
    lemma_prefix_mismatch(stem, name + "_max"@);
}

/// The proving-key file named after a profile's label (with any version)
/// stands for that profile again.
pub proof fn lemma_profile_label_reads_back(p: CircuitProfile, version: Seq<char>)
    ensures
        profile_of_file(profile_label(p) + "_v"@ + version + ".pk"@) == Some(p),
{
    reveal_strlit("_v");
    reveal_strlit("_w");
    reveal_strlit(".pk");
    reveal_strlit("role_assignment_n");
    reveal_strlit("role_assignment_max");
    reveal_strlit("divination");
    reveal_strlit("anonymous_voting");
    reveal_strlit("winning_judgement");
    reveal_strlit("key_publicize");
    reveal_strlit("divination_n");
    reveal_strlit("anonymous_voting_n");
    reveal_strlit("winning_judgement_n");
    reveal_strlit("key_publicize_n");
    reveal_strlit("_n");
    let stem = profile_label(p) + "_v"@ + version;
    let name = stem + ".pk"@;
    assert(name.skip(name.len() - 3) =~= ".pk"@);
    assert(name.take(name.len() - 3) =~= stem);
    match p {
        CircuitProfile::RoleAssignment { player_count, werewolf_count } => {
            let rest = decimal(player_count as nat) + "_w"@ + (decimal(werewolf_count as nat) + "_v"@ + version);
            assert(stem =~= "role_assignment_n"@ + rest);
            lemma_strip_prefix_concat("role_assignment_n"@, rest);
            lemma_split_after_count(player_count, "_w"@, decimal(werewolf_count as nat) + "_v"@ + version);
            lemma_split_after_count(werewolf_count, "_v"@, version);
        },
        CircuitProfile::Divination { player_count } => {
            assert(stem =~= "divination"@ + "_n"@ + decimal(player_count as nat) + "_v"@ + version);
            lemma_prefix_mismatch(stem, "role_assignment_n"@);
            lemma_prefix_mismatch(stem, "role_assignment_max"@);
            lemma_single_count("divination"@, player_count, version);
        },
        CircuitProfile::AnonymousVoting { player_count } => {
            assert(stem =~= "anonymous_voting"@ + "_n"@ + decimal(player_count as nat) + "_v"@ + version);
            lemma_prefix_mismatch(stem, "role_assignment_n"@);
            lemma_prefix_mismatch(stem, "role_assignment_max"@);
            lemma_single_count_other(stem, "divination"@);
            lemma_single_count("anonymous_voting"@, player_count, version);
        },
        CircuitProfile::WinningJudge { player_count } => {
            assert(stem =~= "winning_judgement"@ + "_n"@ + decimal(player_count as nat) + "_v"@ + version);
            lemma_prefix_mismatch(stem, "role_assignment_n"@);
            lemma_prefix_mismatch(stem, "role_assignment_max"@);
            lemma_single_count_other(stem, "divination"@);
            lemma_single_count_other(stem, "anonymous_voting"@);
            lemma_single_count("winning_judgement"@, player_count, version);
        },
        CircuitProfile::KeyPublicize { player_count } => {
            assert(stem =~= "key_publicize"@ + "_n"@ + decimal(player_count as nat) + "_v"@ + version);
            lemma_prefix_mismatch(stem, "role_assignment_n"@);
            lemma_prefix_mismatch(stem, "role_assignment_max"@);
            lemma_single_count_other(stem, "divination"@);
            lemma_single_count_other(stem, "anonymous_voting"@);
            lemma_single_count_other(stem, "winning_judgement"@);
            lemma_single_count("key_publicize"@, player_count, version);
        },
    }
}

/// A file name that does not end in `.pk` stands for no profile.
pub proof fn lemma_profile_needs_pk_suffix(name: Seq<char>)
    requires
        strip_suffix_spec(name, ".pk"@) is None,
    ensures
        profile_of_file(name) is None,
{
}

/// The default werewolf counts: one for up to 6 players, two for 7 to 9,
/// three from 10 on; so they never fall as the game grows.
pub proof fn lemma_default_werewolves_table(n: usize, m: usize)
    ensures
        n <= 6 ==> default_werewolves(n) == 1,
        7 <= n <= 9 ==> default_werewolves(n) == 2,
        n >= 10 ==> default_werewolves(n) == 3,
        n <= m ==> default_werewolves(n) <= default_werewolves(m),
{
}

/// A `role_assignment_max<p>_v…` key file stands for a role assignment of
/// `p` players with the default werewolves: one up to 6 players, two up to
/// 9, three beyond.
pub proof fn lemma_max_file_uses_default_werewolves(p: usize, version: Seq<char>)
    ensures
        profile_of_file("role_assignment_max"@ + decimal(p as nat) + "_v"@ + version + ".pk"@) == Some(
            CircuitProfile::RoleAssignment {
                player_count: p,
                werewolf_count: if p <= 6 {
                    1usize
                } else if p <= 9 {
                    2usize
                } else {
                    3usize
                },
            },
        ),
{
    reveal_strlit("_v");
    reveal_strlit(".pk");
    reveal_strlit("role_assignment_n");
    reveal_strlit("role_assignment_max");
    let stem = "role_assignment_max"@ + decimal(p as nat) + "_v"@ + version;
    let name = stem + ".pk"@;
    assert(name.skip(name.len() - 3) =~= ".pk"@);
    assert(name.take(name.len() - 3) =~= stem);
    let rest = decimal(p as nat) + "_v"@ + version;
    assert(stem =~= "role_assignment_max"@ + rest);
    assert(stem[16] == 'm');
    assert(stem.take(17)[16] == 'm');
    assert("role_assignment_n"@[16] == 'n');
    assert(stem.take(17) != "role_assignment_n"@);
    lemma_strip_prefix_concat("role_assignment_max"@, rest);
    lemma_split_after_count(p, "_v"@, version);
}

} // verus!
