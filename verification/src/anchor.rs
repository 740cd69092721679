//! The heading anchor allocator: given the anchor ids already assigned
//! earlier in the document and a candidate heading title, it produces an
//! anchor that no earlier heading carries.
//!
//! The title itself is used when it is still free; otherwise the suffixes
//! `-2`, `-3`, ... are tried in order until one is free. A bounded loop
//! realizes this: among the first `n + 1` suffixes, where `n` anchors are
//! taken, one must be free.
use vstd::prelude::*;

use crate::text;
use crate::text::dec_str;

verus! {

/// The anchor tried at step `k`: the title with the numeric suffix `k`.
pub open spec fn anchor_candidate(name: Seq<char>, k: nat) -> Seq<char> {
    name + seq!['-'] + dec_str(k)
}

/// True when one of the strings in `used` reads `s`.
pub open spec fn contains_str(used: Seq<Seq<char>>, s: Seq<char>) -> bool {
    exists|i: int| 0 <= i < used.len() && used[i] == s
}

/// What the allocator returns: the free title itself, or the first free
/// numeric suffix starting from `-2`.
pub open spec fn is_anchor_of(used: Seq<Seq<char>>, name: Seq<char>, r: Seq<char>) -> bool {
    if !contains_str(used, name) {
        r == name
    } else {
        exists|k: nat|
            2 <= k && r == anchor_candidate(name, k) && !contains_str(
                used,
                anchor_candidate(name, k),
            ) && (forall|j: nat| 2 <= j < k ==> contains_str(used, #[trigger] anchor_candidate(name, j)))
    }
}

/// Distinct suffixes name distinct candidates.
proof fn lemma_candidate_injective(name: Seq<char>, j1: nat, j2: nat)
    requires
        anchor_candidate(name, j1) == anchor_candidate(name, j2),
    ensures
        j1 == j2,
{
    let c1 = anchor_candidate(name, j1);
    let c2 = anchor_candidate(name, j2);
    text::lemma_dec_str_digits(j1);
    text::lemma_dec_str_digits(j2);
    assert(c1.skip(name.len() as int + 1) =~= dec_str(j1));
    assert(c2.skip(name.len() as int + 1) =~= dec_str(j2));
    text::lemma_dec_str_injective(j1, j2);
}

/// If every suffix from `2` below `k` is taken, there are at least `k - 2`
/// anchors in `used`: the candidates are pairwise distinct.
proof fn lemma_candidates_bound(used: Seq<Seq<char>>, name: Seq<char>, k: nat)
    requires
        k >= 2,
        forall|j: nat| 2 <= j < k ==> contains_str(used, #[trigger] anchor_candidate(name, j)),
    ensures
        k - 2 <= used.len(),
{
    broadcast use vstd::set::group_set_axioms;
    broadcast use vstd::seq_lib::seq_to_set_is_finite;

    let cands = Seq::new((k - 2) as nat, |i: int| anchor_candidate(name, (i + 2) as nat));
    assert(cands.no_duplicates()) by {
        assert forall|i: int, j: int|
            0 <= i < cands.len() && 0 <= j < cands.len() && i != j implies cands[i] != cands[j] by {
            if cands[i] == cands[j] {
                lemma_candidate_injective(name, (i + 2) as nat, (j + 2) as nat);
            }
        }
    }
    cands.unique_seq_to_set();
    used.lemma_cardinality_of_set();
    assert(cands.to_set().subset_of(used.to_set())) by {
        assert forall|s: Seq<char>| cands.to_set().contains(s) implies used.to_set().contains(
            s,
        ) by {
            let i = choose|i: int| 0 <= i < cands.len() && cands[i] == s;
            assert(contains_str(used, anchor_candidate(name, (i + 2) as nat)));
            let w = choose|w: int| 0 <= w < used.len() && used[w] == s;
            assert(used.contains(s));
        }
    }
    vstd::set_lib::lemma_len_subset(cands.to_set(), used.to_set());
}

/// Membership test of a string among the used anchors.
fn used_contains(anchors: &Vec<String>, s: &Vec<char>) -> (r: bool)
    ensures
        r == contains_str(anchors.deep_view(), s@),
{
    let mut i: usize = 0;
    while i < anchors.len()
        invariant
            i <= anchors@.len(),
            anchors.deep_view().len() == anchors@.len(),
            forall|j: int| 0 <= j < i ==> anchors.deep_view()[j] != s@,
        decreases anchors@.len() - i,
    {
        proof {
            assert(anchors.deep_view()[i as int] == anchors@[i as int]@);
        }
        let av = text::chars_of(anchors[i].as_str());
        if text::chars_eq(&av, s) {
            return true;
        }
        i = i + 1;
    }
    false
}

/// Returns a unique anchor for a heading: the title itself when free, else
/// the title with the first free numeric suffix from `-2` up. The result
/// never collides with an anchor already in `anchors`.
pub fn get_anchor(anchors: &Vec<String>, name: String) -> (r: String)
    ensures
        !contains_str(anchors.deep_view(), r@),
        is_anchor_of(anchors.deep_view(), name@, r@),
{
    let ghost used = anchors.deep_view();
    let nv = text::chars_of(name.as_str());
    if !used_contains(anchors, &nv) {
        return name;
    }
    let n = anchors.len();
    proof {
        assert(used.len() == anchors@.len());
    }
    let mut k: u128 = 2;
    loop
        invariant
            used == anchors.deep_view(),
            used.len() == n as nat,
            nv@ == name@,
            2 <= k <= used.len() + 2,
            forall|j: nat| 2 <= j < k ==> contains_str(used, #[trigger] anchor_candidate(name@, j)),
            contains_str(used, name@),
        decreases used.len() + 2 - k,
    {
        let mut cand = text::sub_vec(&nv, 0, nv.len());
        cand.push('-');
        let suffix = text::dec_chars(k);
        text::append_chars(&mut cand, &suffix);
        proof {
            assert(cand@ =~= anchor_candidate(name@, k as nat));
        }
        if !used_contains(anchors, &cand) {
            proof {
                assert(is_anchor_of(used, name@, cand@));
            }
            return text::string_of(&cand);
        }
        proof {
            lemma_candidates_bound(used, name@, k as nat + 1);
        }
        k = k + 1;
    }
}

/// The allocator's answer is determined: any two strings that both satisfy
/// the allocation description for the same inputs are equal. Together with
/// the collision freedom in `get_anchor`'s contract, headings allocated one
/// after another always carry pairwise distinct anchors.
pub proof fn lemma_anchor_determined(used: Seq<Seq<char>>, name: Seq<char>, r1: Seq<char>, r2: Seq<char>)
    requires
        is_anchor_of(used, name, r1),
        is_anchor_of(used, name, r2),
    ensures
        r1 == r2,
{
    if contains_str(used, name) {
        let k1 = choose|k: nat|
            2 <= k && r1 == anchor_candidate(name, k) && !contains_str(
                used,
                anchor_candidate(name, k),
            ) && (forall|j: nat| 2 <= j < k ==> contains_str(used, #[trigger] anchor_candidate(name, j)));
        let k2 = choose|k: nat|
            2 <= k && r2 == anchor_candidate(name, k) && !contains_str(
                used,
                anchor_candidate(name, k),
            ) && (forall|j: nat| 2 <= j < k ==> contains_str(used, #[trigger] anchor_candidate(name, j)));
        if k1 < k2 {
            assert(contains_str(used, anchor_candidate(name, k1)));
        } else if k2 < k1 {
            assert(contains_str(used, anchor_candidate(name, k2)));
        }
    }
}

} // verus!
