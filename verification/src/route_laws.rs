//! Which requests paths lead to.

use vstd::prelude::*;

use crate::routes::{
    begins, core_path, find_char, parts_from, path_parts, routed, without_leading, without_prefix,
    without_trailing, CallView, API_PREFIX,
};

verus! {

/// The text does not hold a character.
pub open spec fn free_of(s: Seq<char>, c: char) -> bool {
    forall|i: int| 0 <= i < s.len() ==> #[trigger] s[i] != c
}

/// A part of a path: not empty, and with neither a slash nor a question mark.
pub open spec fn is_part(s: Seq<char>) -> bool {
    s.len() > 0 && free_of(s, '/') && free_of(s, '?')
}

/// The path of some parts, with a slash before each.
pub open spec fn path_of(parts: Seq<Seq<char>>) -> Seq<char>
    decreases parts.len(),
{
    if parts.len() == 0 {
        Seq::empty()
    } else {
        seq!['/'] + parts[0] + path_of(parts.skip(1))
    }
}

proof fn lemma_find(s: Seq<char>, c: char, i: int, j: int)
    requires
        0 <= i <= j <= s.len(),
        forall|k: int| i <= k < j ==> #[trigger] s[k] != c,
        j < s.len() ==> s[j] == c,
    ensures
        find_char(s, c, i) == j,
    decreases j - i,
{
    if i < j {
        lemma_find(s, c, i + 1, j);
    }
}

proof fn lemma_find_shift(s: Seq<char>, c: char, k: int, i: int)
    requires
        0 <= k <= i <= s.len(),
    ensures
        find_char(s, c, i) == k + find_char(s.skip(k), c, i - k),
        i <= find_char(s, c, i) <= s.len(),
        i < s.len() && s[i] != c ==> i < find_char(s, c, i),
    decreases s.len() - i,
{
    if i < s.len() {
        assert(s.skip(k)[i - k] == s[i]);
        if s[i] != c {
            lemma_find_shift(s, c, k, i + 1);
        }
    }
}

proof fn lemma_parts_shift(s: Seq<char>, k: int, i: int)
    requires
        0 <= k <= i <= s.len(),
    ensures
        parts_from(s, i) == parts_from(s.skip(k), i - k),
    decreases s.len() - i,
{
    let t = s.skip(k);
    if i < s.len() {
        assert(t[i - k] == s[i]);
        if s[i] == '/' {
            lemma_parts_shift(s, k, i + 1);
        } else {
            lemma_find_shift(s, '/', k, i);
            let j = find_char(s, '/', i);
            lemma_parts_shift(s, k, j);
            assert(s.subrange(i, j) =~= t.subrange(i - k, j - k));
        }
    }
}

proof fn lemma_path_of(parts: Seq<Seq<char>>)
    requires
        parts.len() > 0,
        forall|k: int| 0 <= k < parts.len() ==> is_part(#[trigger] parts[k]),
    ensures
        parts_from(path_of(parts), 1) == parts,
        path_of(parts).len() >= 2,
        path_of(parts)[0] == '/',
        path_of(parts)[1] != '/',
        path_of(parts).last() != '/',
        free_of(path_of(parts), '?'),
    decreases parts.len(),
{
    let s = path_of(parts);
    let p = parts[0];
    let rest = path_of(parts.skip(1));
    let j = 1 + p.len() as int;
    assert(s == seq!['/'] + p + rest);
    assert(is_part(p));
    assert(s.skip(j) =~= rest);
    assert forall|k: int| 1 <= k < j implies #[trigger] s[k] != '/' && s[k] != '?' by {
        assert(s[k] == p[k - 1]);
    }
    assert(s.subrange(1, j) =~= p);
    assert(s[1] != '/');
    if parts.len() > 1 {
        assert forall|k: int| 0 <= k < parts.skip(1).len() implies is_part(
            #[trigger] parts.skip(1)[k],
        ) by {
            assert(parts.skip(1)[k] == parts[k + 1]);
        }
        lemma_path_of(parts.skip(1));
        assert(s[j] == rest[0]);
        assert(s.last() == rest.last());
        assert forall|k: int| 0 <= k < s.len() implies #[trigger] s[k] != '?' by {
            if k >= j {
                assert(s[k] == rest[k - j]);
            }
        }
        lemma_find(s, '/', 1, j);
        lemma_parts_shift(s, j, j + 1);
        assert(parts_from(s, j) == parts_from(s, j + 1));
        assert(parts_from(s, 1) == seq![p] + parts.skip(1));
        assert(seq![p] + parts.skip(1) =~= parts);
    } else {
        assert(rest.len() == 0);
        assert(s.last() == s[j - 1]);
        lemma_find(s, '/', 1, j);
        assert(parts_from(s, j) == Seq::<Seq<char>>::empty());
        assert(seq![p] + Seq::<Seq<char>>::empty() =~= parts);
    }
}

/// A path is taken apart into its parts, with the common prefix before it or
/// without, unless the parts themselves begin with that prefix.
pub proof fn law_path_taken_apart(parts: Seq<Seq<char>>)
    requires
        parts.len() > 0,
        forall|k: int| 0 <= k < parts.len() ==> is_part(#[trigger] parts[k]),
        !begins(path_of(parts), API_PREFIX@),
    ensures
        path_parts(path_of(parts)) == parts,
        path_parts(API_PREFIX@ + path_of(parts)) == parts,
{
    let s = path_of(parts);
    lemma_path_of(parts);
    let whole = API_PREFIX@ + s;
    assert(whole.skip(API_PREFIX@.len() as int) =~= s);
    assert(whole.take(API_PREFIX@.len() as int) =~= API_PREFIX@);
    assert(without_prefix(s, API_PREFIX@) == s);
    assert(without_prefix(whole, API_PREFIX@) == s);
    let t = s.skip(1);
    assert(t[0] == s[1]);
    assert(without_leading(t, '/') == t);
    assert(without_leading(s, '/') == t);
    assert(t.last() == s.last());
    assert(without_trailing(t, '/') == t);
    assert forall|k: int| 0 <= k < t.len() implies #[trigger] t[k] != '?' by {
        assert(t[k] == s[k + 1]);
    }
    lemma_find(t, '?', 0, t.len() as int);
    assert(t.take(t.len() as int) =~= t);
    assert(core_path(s) == t);
    assert(core_path(whole) == t);
    lemma_parts_shift(s, 1, 1);
}

/// The parts of a path are not empty and hold no slash.
pub proof fn law_parts_proper(s: Seq<char>, i: int)
    requires
        0 <= i,
    ensures
        forall|k: int|
            0 <= k < parts_from(s, i).len() ==> (#[trigger] parts_from(s, i)[k]).len() > 0
                && free_of(parts_from(s, i)[k], '/'),
    decreases s.len() - i,
{
    if i < s.len() {
        if s[i] == '/' {
            law_parts_proper(s, i + 1);
            assert(parts_from(s, i) == parts_from(s, i + 1));
        } else {
            let j = find_char(s, '/', i);
            lemma_find_shift(s, '/', 0, i);
            lemma_before_found(s, '/', i);
            law_parts_proper(s, j);
            let rest = parts_from(s, j);
            let all = parts_from(s, i);
            assert(all == seq![s.subrange(i, j)] + rest);
            assert forall|k: int| 0 <= k < all.len() implies (#[trigger] all[k]).len() > 0 && free_of(
                all[k],
                '/',
            ) by {
                if k > 0 {
                    assert(all[k] == rest[k - 1]);
                } else {
                    assert forall|m: int| 0 <= m < all[0].len() implies #[trigger] all[0][m]
                        != '/' by {
                        assert(all[0][m] == s[i + m]);
                    }
                }
            }
        }
    }
}

proof fn lemma_before_found(s: Seq<char>, c: char, i: int)
    requires
        0 <= i <= s.len(),
    ensures
        forall|k: int| i <= k < find_char(s, c, i) && k < s.len() ==> #[trigger] s[k] != c,
    decreases s.len() - i,
{
    if i < s.len() && s[i] != c {
        lemma_before_found(s, c, i + 1);
    }
}

/// A request with the method GET only reads.
pub proof fn law_get_reads(path: Seq<char>)
    ensures
        ({
            let c = routed("GET"@, path);
            ||| c is ListElections || c is GetElection || c is Receipt || c is Proof || c is Board
                || c is Artifact || c is NoRoute
            ||| c is ListBenchmarks || c is GetBenchmark || c is BenchmarkEvents || c
                is BenchmarkJson || c is BenchmarkCsv || c is NoBenchmarkRoute
        }),
{
    reveal_strlit("GET");
    reveal_strlit("POST");
    assert("GET"@.len() == 3 && "POST"@.len() == 4);
}

/// A request that names an election, or an aggregator or voter in it, is for
/// what its path names.
pub proof fn law_request_names(method: Seq<char>, path: Seq<char>)
    ensures
        ({
            let s = path_parts(path);
            match routed(method, path) {
                CallView::GetElection { eid } => s.len() == 2 && eid == s[1],
                CallView::SetPhase { eid } => s.len() == 3 && eid == s[1] && s[2] == "phase"@,
                CallView::CreateVoters { eid } => s.len() == 4 && eid == s[1],
                CallView::Register { eid } => s.len() == 3 && eid == s[1] && s[2] == "register"@,
                CallView::Vote { eid } => s.len() == 3 && eid == s[1] && s[2] == "vote"@,
                CallView::Receipt { eid, vid } => s.len() == 5 && eid == s[1] && s[2] == "voters"@
                    && vid == s[3],
                CallView::Finalize { eid, aid } => s.len() == 5 && eid == s[1] && s[2]
                    == "aggregators"@ && aid == s[3] && s[4] == "finalize-registration"@,
                CallView::Prove { eid, aid } => s.len() == 5 && eid == s[1] && s[2]
                    == "aggregators"@ && aid == s[3] && s[4] == "prove"@,
                CallView::Verify { eid, aid } => s.len() == 5 && eid == s[1] && s[2]
                    == "aggregators"@ && aid == s[3] && s[4] == "verify"@,
                CallView::Proof { eid, aid } => s.len() == 5 && eid == s[1] && s[2]
                    == "aggregators"@ && aid == s[3] && s[4] == "proof.json"@,
                CallView::VerifyAll { eid } => s.len() == 3 && eid == s[1] && s[2] == "verify-all"@,
                CallView::Board { eid } => s.len() == 3 && eid == s[1] && s[2] == "bulletin-board"@,
                CallView::Artifact { eid } => s.len() == 3 && eid == s[1] && s[2]
                    == "public-artifact.json"@,
                CallView::GetBenchmark { bid } => s.len() == 2 && bid == s[1],
                CallView::BenchmarkEvents { bid } => s.len() == 3 && bid == s[1] && s[2]
                    == "events"@,
                CallView::BenchmarkJson { bid } => s.len() == 3 && bid == s[1] && s[2]
                    == "results.json"@,
                CallView::BenchmarkCsv { bid } => s.len() == 3 && bid == s[1] && s[2]
                    == "results.csv"@,
                _ => true,
            }
        }),
{
}

} // verus!
