//! Filename conflict resolution: the iterative ` (n)` suffix scheme.
//!
//! A destination may already hold a file under the proposed name. The
//! resolver tries the name itself, then `stem (1).ext`, `stem (2).ext`, and
//! so on (`name (1)`, `name (2)`, ... for an extensionless name), and picks
//! the first candidate that is still free. The extension is the part after
//! the last dot, except that a dot in the leading position marks a hidden
//! file, not an extension.

use vstd::prelude::*;
use crate::strutil::{
    contains_string, dec_rep, last_index_of, lemma_dec_rep_injective, lemma_dec_rep_len_bounds,
    u64_to_string,
};

verus! {

/// `i` is the position of the extension dot of `name`: a dot, not in the
/// leading position, with no dot after it.
pub open spec fn has_ext_at(name: Seq<char>, i: int) -> bool {
    &&& 0 < i < name.len()
    &&& name[i] == '.'
    &&& forall|j: int| i < j < name.len() ==> name[j] != '.'
}

/// `name` has an extension.
pub open spec fn has_ext(name: Seq<char>) -> bool {
    exists|i: int| has_ext_at(name, i)
}

/// Position of the extension dot.
pub open spec fn ext_index(name: Seq<char>) -> int {
    choose|i: int| has_ext_at(name, i)
}

/// The name without its extension (the whole name when there is none).
pub open spec fn name_stem(name: Seq<char>) -> Seq<char> {
    if has_ext(name) {
        name.subrange(0, ext_index(name))
    } else {
        name
    }
}

/// The extension, empty when there is none.
pub open spec fn name_ext(name: Seq<char>) -> Seq<char> {
    if has_ext(name) {
        name.subrange(ext_index(name) + 1, name.len() as int)
    } else {
        Seq::empty()
    }
}

/// The extension dot position is unique.
pub proof fn lemma_ext_index_at(name: Seq<char>, i: int)
    requires
        has_ext_at(name, i),
    ensures
        has_ext(name),
        ext_index(name) == i,
{
    let j = ext_index(name);
    assert(has_ext_at(name, j));
    if i < j {
        assert(name[j] != '.');
        assert(false);
    } else if j < i {
        assert(name[i] != '.');
        assert(false);
    }
}

/// A name with an extension is its stem, a dot, and its extension.
pub proof fn lemma_name_reassemble(name: Seq<char>)
    requires
        has_ext(name),
    ensures
        name =~= name_stem(name) + seq!['.'] + name_ext(name),
        name.len() == name_stem(name).len() + 1 + name_ext(name).len(),
{
    let i = ext_index(name);
    assert(has_ext_at(name, i));
}

/// The `n`-th renamed candidate: ` (n)` wedged between stem and extension.
pub open spec fn numbered_name(name: Seq<char>, n: nat) -> Seq<char> {
    if name_ext(name).len() == 0 {
        name_stem(name) + " ("@ + dec_rep(n) + ")"@
    } else {
        name_stem(name) + " ("@ + dec_rep(n) + ")."@ + name_ext(name)
    }
}

/// Candidate `n` for resolving a conflict on `name`: the name itself first,
/// then the numbered names.
pub open spec fn collision_candidate(name: Seq<char>, n: nat) -> Seq<char> {
    if n == 0 {
        name
    } else {
        numbered_name(name, n)
    }
}

/// Shape facts of a numbered name: its length, and where the counter digits
/// sit in it.
proof fn lemma_numbered_shape(name: Seq<char>, n: nat)
    ensures
        name_ext(name).len() == 0 ==> numbered_name(name, n).len() == name_stem(name).len() + 3
            + dec_rep(n).len(),
        name_ext(name).len() > 0 ==> numbered_name(name, n).len() == name_stem(name).len() + 4
            + dec_rep(n).len() + name_ext(name).len(),
        numbered_name(name, n).subrange(
            name_stem(name).len() as int + 2,
            name_stem(name).len() as int + 2 + dec_rep(n).len() as int,
        ) =~= dec_rep(n),
{
    reveal_strlit(" (");
    reveal_strlit(")");
    reveal_strlit(").");
}

/// Distinct counters give distinct numbered names.
proof fn lemma_numbered_injective(name: Seq<char>, m: nat, n: nat)
    requires
        m != n,
    ensures
        numbered_name(name, m) != numbered_name(name, n),
{
    lemma_numbered_shape(name, m);
    lemma_numbered_shape(name, n);
    if numbered_name(name, m) == numbered_name(name, n) {
        assert(dec_rep(m).len() == dec_rep(n).len());
        assert(dec_rep(m) =~= dec_rep(n));
        lemma_dec_rep_injective(m, n);
    }
}

/// All collision candidates for one name are pairwise distinct.
pub proof fn lemma_candidate_injective(name: Seq<char>, m: nat, n: nat)
    requires
        m != n,
    ensures
        collision_candidate(name, m) != collision_candidate(name, n),
{
    reveal_strlit(" (");
    reveal_strlit(")");
    reveal_strlit(").");
    if m == 0 || n == 0 {
        let k = if m == 0 { n } else { m };
        lemma_numbered_shape(name, k);
        lemma_dec_rep_len_bounds(k);
        if has_ext(name) {
            lemma_name_reassemble(name);
            assert(numbered_name(name, k).len() > name.len());
        } else {
            assert(name_ext(name).len() == 0);
            assert(name_stem(name) == name);
            assert(numbered_name(name, k).len() > name.len());
        }
    } else {
        lemma_numbered_injective(name, m, n);
    }
}

/// Splits `name` into stem and extension.
pub fn split_name(name: &str) -> (r: (String, String))
    ensures
        r.0@ == name_stem(name@),
        r.1@ == name_ext(name@),
{
    let len = name.unicode_len();
    let dot = last_index_of(name, '.');
    match dot {
        Some(i) => {
            if i > 0 {
                proof {
                    lemma_ext_index_at(name@, i as int);
                }
                let stem = name.substring_char(0, i);
                let ext = name.substring_char(i + 1, len);
                (stem.to_owned(), ext.to_owned())
            } else {
                proof {
                    assert(!has_ext(name@)) by {
                        if has_ext(name@) {
                            let k = ext_index(name@);
                            assert(has_ext_at(name@, k));
                            assert(name@[k] == '.');
                        }
                    }
                }
                let empty: &str = "";
                proof {
                    reveal_strlit("");
                    assert(empty@ =~= Seq::<char>::empty());
                }
                (name.to_owned(), empty.to_owned())
            }
        },
        None => {
            proof {
                assert(!has_ext(name@)) by {
                    if has_ext(name@) {
                        let k = ext_index(name@);
                        assert(has_ext_at(name@, k));
                        assert(name@[k] == '.');
                    }
                }
            }
            let empty: &str = "";
            proof {
                reveal_strlit("");
                assert(empty@ =~= Seq::<char>::empty());
            }
            (name.to_owned(), empty.to_owned())
        },
    }
}

/// Builds the numbered candidate from the split parts of the name.
fn numbered_candidate(stem: &str, ext: &str, n: usize, Ghost(name): Ghost<Seq<char>>) -> (r:
    String)
    requires
        stem@ == name_stem(name),
        ext@ == name_ext(name),
    ensures
        r@ == numbered_name(name, n as nat),
{
    let mut out = stem.to_owned();
    out.append(" (");
    let digits = u64_to_string(n as u64);
    out.append(digits.as_str());
    if ext.unicode_len() == 0 {
        out.append(")");
        proof {
            assert(out@ =~= numbered_name(name, n as nat));
        }
        out
    } else {
        out.append(").");
        out.append(ext);
        proof {
            assert(out@ =~= numbered_name(name, n as nat));
        }
        out
    }
}

/// Picks the first free name for `name` in a destination whose occupied
/// names are `existing`: the name itself if free, otherwise the first
/// numbered candidate that is free. Terminates because the candidates are
/// pairwise distinct: they cannot all be occupied.
pub fn resolve_collision(existing: &Vec<String>, name: &str) -> (r: String)
    requires
        existing@.len() < usize::MAX,
    ensures
        !existing.deep_view().contains(r@),
        exists|n: nat|
            r@ == collision_candidate(name@, n) && (forall|m: nat|
                m < n ==> existing.deep_view().contains(#[trigger] collision_candidate(name@, m))),
{
    let ghost e = existing.deep_view();
    let (stem, ext) = split_name(name);
    let mut n: usize = 0;
    let mut cand: String = name.to_owned();
    while contains_string(existing, cand.as_str())
        invariant
            e == existing.deep_view(),
            e.len() == existing@.len(),
            existing@.len() < usize::MAX,
            stem@ == name_stem(name@),
            ext@ == name_ext(name@),
            cand@ == collision_candidate(name@, n as nat),
            forall|m: nat| m < n ==> e.contains(#[trigger] collision_candidate(name@, m)),
            n <= e.len(),
        decreases e.len() - n,
    {
        // The current candidate is occupied too; by distinctness of the
        // candidates, the occupied list bounds how often this can happen.
        proof {
            let k = n + 1;
            let cs = Seq::new(k as nat, |m: int| collision_candidate(name@, m as nat));
            assert(cs.no_duplicates()) by {
                assert forall|i: int, j: int|
                    0 <= i < cs.len() && 0 <= j < cs.len() && i != j implies cs[i] != cs[j] by {
                    lemma_candidate_injective(name@, i as nat, j as nat);
                }
            }
            cs.unique_seq_to_set();
            assert(cs.to_set().subset_of(e.to_set())) by {
                assert forall|x: Seq<char>| cs.to_set().contains(x) implies e.to_set().contains(
                    x,
                ) by {
                    let i = choose|i: int| 0 <= i < cs.len() && cs[i] == x;
                    assert(e.contains(collision_candidate(name@, i as nat)));
                }
            }
            broadcast use vstd::seq_lib::seq_to_set_is_finite;

            e.lemma_cardinality_of_set();
            vstd::set_lib::lemma_len_subset(cs.to_set(), e.to_set());
            assert(k <= e.len());
        }
        n += 1;
        cand = numbered_candidate(stem.as_str(), ext.as_str(), n, Ghost(name@));
    }
    cand
}

} // verus!
