//! The curated eduPerson attribute set.
//!
//! The proxy passes through a fixed set of attributes, addressed by
//! OID; anything outside the set is dropped, and of a repeated
//! attribute or value only the first counts.

use vstd::prelude::*;
use crate::bytes::str_eq;
use crate::saml::{AttributeRow, AttributeRowV};

verus! {

/// eduPersonPrincipalName.
pub const EDU_PERSON_PRINCIPAL_NAME: &'static str = "urn:oid:1.3.6.1.4.1.5923.1.1.1.6";

/// eduPersonScopedAffiliation.
pub const EDU_PERSON_SCOPED_AFFILIATION: &'static str = "urn:oid:1.3.6.1.4.1.5923.1.1.1.9";

/// eduPersonAffiliation.
pub const EDU_PERSON_AFFILIATION: &'static str = "urn:oid:1.3.6.1.4.1.5923.1.1.1.1";

/// mail.
pub const MAIL: &'static str = "urn:oid:0.9.2342.19200300.100.1.3";

/// displayName.
pub const DISPLAY_NAME: &'static str = "urn:oid:2.16.840.1.113730.3.1.241";

/// givenName.
pub const GIVEN_NAME: &'static str = "urn:oid:2.5.4.42";

/// sn.
pub const SURNAME: &'static str = "urn:oid:2.5.4.4";

/// The OIDs the proxy passes through.
pub open spec fn curated_oids() -> Seq<Seq<char>> {
    seq![
        EDU_PERSON_PRINCIPAL_NAME@,
        EDU_PERSON_SCOPED_AFFILIATION@,
        EDU_PERSON_AFFILIATION@,
        MAIL@,
        DISPLAY_NAME@,
        GIVEN_NAME@,
        SURNAME@,
    ]
}

/// What one attribute row would contribute: its name and first value,
/// where the name is curated and the first value is present.
pub open spec fn row_pick(row: AttributeRowV) -> Option<(Seq<char>, Seq<char>)> {
    match row.name {
        None => None,
        Some(n) => {
            if !curated_oids().contains(n) {
                None
            } else if row.values.len() == 0 {
                None
            } else {
                match row.values[0] {
                    Some(v) => Some((n, v)),
                    None => None,
                }
            }
        },
    }
}

/// The pairs the rows contribute, in row order, first occurrence of a
/// name winning.
pub open spec fn extract_rec(rows: Seq<AttributeRowV>, seen: Set<Seq<char>>) -> Seq<
    (Seq<char>, Seq<char>),
>
    decreases rows.len(),
{
    if rows.len() == 0 {
        Seq::empty()
    } else {
        match row_pick(rows[0]) {
            Some(p) => {
                if seen.contains(p.0) {
                    extract_rec(rows.drop_first(), seen)
                } else {
                    seq![p] + extract_rec(rows.drop_first(), seen.insert(p.0))
                }
            },
            None => extract_rec(rows.drop_first(), seen),
        }
    }
}

/// The curated pairs an assertion's attribute rows yield.
pub open spec fn extracted(rows: Seq<AttributeRowV>) -> Seq<(Seq<char>, Seq<char>)> {
    extract_rec(rows, Set::empty())
}

/// Law: every name emitted is curated, is emitted once, and nothing
/// else is emitted.  (That the value is the row's first value is part
/// of `row_pick`.)
pub proof fn lemma_extracted_curated(rows: Seq<AttributeRowV>, seen: Set<Seq<char>>)
    ensures
        forall|k: int| 0 <= k < extract_rec(rows, seen).len() ==> curated_oids().contains(
            (#[trigger] extract_rec(rows, seen)[k]).0,
        ),
        forall|k: int| 0 <= k < extract_rec(rows, seen).len() ==> !seen.contains(
            (#[trigger] extract_rec(rows, seen)[k]).0,
        ),
        forall|k1: int, k2: int| 0 <= k1 < k2 < extract_rec(rows, seen).len() ==> (
        #[trigger] extract_rec(rows, seen)[k1]).0 != (#[trigger] extract_rec(rows, seen)[k2]).0,
    decreases rows.len(),
{
    if rows.len() > 0 {
        let out = extract_rec(rows, seen);
        match row_pick(rows[0]) {
            Some(p) => {
                if seen.contains(p.0) {
                    lemma_extracted_curated(rows.drop_first(), seen);
                    assert(out == extract_rec(rows.drop_first(), seen));
                } else {
                    lemma_extracted_curated(rows.drop_first(), seen.insert(p.0));
                    let rest = extract_rec(rows.drop_first(), seen.insert(p.0));
                    assert(out =~= seq![p] + rest);
                    assert forall|k: int| 0 <= k < out.len() implies curated_oids().contains(
                        (#[trigger] out[k]).0,
                    ) && !seen.contains(out[k].0) by {
                        if k > 0 {
                            assert(out[k] == rest[k - 1]);
                            assert(!seen.insert(p.0).contains(rest[k - 1].0));
                        } else {
                            assert(out[0] == p);
                        }
                    }
                    assert forall|k1: int, k2: int| 0 <= k1 < k2 < out.len() implies (
                    #[trigger] out[k1]).0 != (#[trigger] out[k2]).0 by {
                        assert(out[k2] == rest[k2 - 1]);
                        if k1 > 0 {
                            assert(out[k1] == rest[k1 - 1]);
                        } else {
                            assert(!seen.insert(p.0).contains(rest[k2 - 1].0) && seen.insert(
                                p.0,
                            ).contains(p.0));
                        }
                    }
                }
            },
            None => {
                lemma_extracted_curated(rows.drop_first(), seen);
                assert(out == extract_rec(rows.drop_first(), seen));
            },
        }
    }
}

/// Whether an attribute name is one of the curated OIDs.
fn is_curated(name: &str) -> (r: bool)
    ensures
        r == curated_oids().contains(name@),
{
    if str_eq(name, EDU_PERSON_PRINCIPAL_NAME) {
        proof {
            assert(curated_oids()[0] == EDU_PERSON_PRINCIPAL_NAME@);
        }
        return true;
    }
    if str_eq(name, EDU_PERSON_SCOPED_AFFILIATION) {
        proof {
            assert(curated_oids()[1] == EDU_PERSON_SCOPED_AFFILIATION@);
        }
        return true;
    }
    if str_eq(name, EDU_PERSON_AFFILIATION) {
        proof {
            assert(curated_oids()[2] == EDU_PERSON_AFFILIATION@);
        }
        return true;
    }
    if str_eq(name, MAIL) {
        proof {
            assert(curated_oids()[3] == MAIL@);
        }
        return true;
    }
    if str_eq(name, DISPLAY_NAME) {
        proof {
            assert(curated_oids()[4] == DISPLAY_NAME@);
        }
        return true;
    }
    if str_eq(name, GIVEN_NAME) {
        proof {
            assert(curated_oids()[5] == GIVEN_NAME@);
        }
        return true;
    }
    if str_eq(name, SURNAME) {
        proof {
            assert(curated_oids()[6] == SURNAME@);
        }
        return true;
    }
    proof {
        if curated_oids().contains(name@) {
            let k = choose|k: int| 0 <= k < curated_oids().len() && curated_oids()[k] == name@;
            assert(false);
        }
    }
    false
}

/// The ghost image of extracted pairs.
pub open spec fn pairs_view(s: Seq<(String, String)>) -> Seq<(Seq<char>, Seq<char>)> {
    s.map_values(|p: (String, String)| (p.0@, p.1@))
}

/// Extracts the curated attributes from an assertion's attribute rows:
/// for each curated OID, its first value in its first row, in row
/// order.  Unknown names, nameless rows and valueless rows are
/// dropped.
pub fn extract_attributes(rows: &Vec<AttributeRow>) -> (r: Vec<(String, String)>)
    ensures
        pairs_view(r@) == extracted(rows@.map_values(|a: AttributeRow| a@)),
{
    let ghost rviews = rows@.map_values(|a: AttributeRow| a@);
    let ghost mut seen: Set<Seq<char>> = Set::empty();
    let mut out: Vec<(String, String)> = Vec::new();
    let n: usize = rows.len();
    let mut i: usize = 0;
    proof {
        assert(rviews.skip(0) =~= rviews);
        assert(pairs_view(out@) =~= Seq::<(Seq<char>, Seq<char>)>::empty());
    }
    while i < n
        invariant
            0 <= i <= n,
            n == rows@.len(),
            rviews == rows@.map_values(|a: AttributeRow| a@),
            extracted(rviews) == pairs_view(out@) + extract_rec(rviews.skip(i as int), seen),
            forall|m: Seq<char>| seen.contains(m) <==> exists|j: int|
                0 <= j < out@.len() && (#[trigger] pairs_view(out@)[j]).0 == m,
        decreases n - i,
    {
        let row = &rows[i];
        proof {
            assert(rviews[i as int] == row@);
            assert(rviews.skip(i as int)[0] == rviews[i as int]);
            assert(rviews.skip(i as int).drop_first() =~= rviews.skip(i + 1));
        }
        let picked: Option<(String, String)> = match &row.name {
            None => None,
            Some(name) => {
                if !is_curated(name.as_str()) {
                    None
                } else if row.values.len() == 0 {
                    None
                } else {
                    match &row.values[0] {
                        Some(v) => Some((name.clone(), v.clone())),
                        None => None,
                    }
                }
            },
        };
        proof {
            assert(row@.values.len() == row.values@.len());
            if row.values@.len() > 0 {
                assert(row@.values[0] == match row.values@[0] {
                    Some(x) => Some(x@),
                    None => None,
                });
            }
        }
        match picked {
            Some(p) => {
                let mut dup = false;
                let m: usize = out.len();
                let mut j: usize = 0;
                loop
                    invariant_except_break
                        !dup,
                    invariant
                        0 <= j <= m,
                        m == out@.len(),
                        forall|k: int| 0 <= k < j ==> (#[trigger] pairs_view(out@)[k]).0
                            != p.0@,
                    ensures
                        dup ==> exists|k: int|
                            0 <= k < out@.len() && (#[trigger] pairs_view(out@)[k]).0 == p.0@,
                        !dup ==> forall|k: int| 0 <= k < out@.len() ==> (
                        #[trigger] pairs_view(out@)[k]).0 != p.0@,
                    decreases m - j,
                {
                    if j == m {
                        break;
                    }
                    if str_eq(out[j].0.as_str(), p.0.as_str()) {
                        proof {
                            assert(pairs_view(out@)[j as int].0 == p.0@);
                        }
                        dup = true;
                        break;
                    }
                    proof {
                        assert(pairs_view(out@)[j as int].0 == out@[j as int].0@);
                    }
                    j = j + 1;
                }
                proof {
                    assert(row_pick(rviews[i as int]) == Some((p.0@, p.1@)));
                    if dup {
                        assert(seen.contains(p.0@));
                    } else {
                        if seen.contains(p.0@) {
                            let jj = choose|jj: int|
                                0 <= jj < out@.len() && (#[trigger] pairs_view(out@)[jj]).0
                                    == p.0@;
                            assert(false);
                        }
                    }
                }
                if dup {
                } else {
                    proof {
                        assert(pairs_view(out@.push(p)) =~= pairs_view(out@).push((p.0@, p.1@)));
                        assert(extract_rec(rviews.skip(i as int), seen) =~= seq![(p.0@, p.1@)]
                            + extract_rec(rviews.skip(i + 1), seen.insert(p.0@)));
                        assert((pairs_view(out@) + extract_rec(rviews.skip(i as int), seen))
                            =~= pairs_view(out@.push(p)) + extract_rec(
                            rviews.skip(i + 1),
                            seen.insert(p.0@),
                        ));
                        let ghost new_seen = seen.insert(p.0@);
                        assert forall|mm: Seq<char>|
                            new_seen.contains(mm) <==> exists|jj: int|
                                0 <= jj < out@.push(p).len() && (#[trigger] pairs_view(
                                    out@.push(p),
                                )[jj]).0 == mm by {
                            if new_seen.contains(mm) {
                                if mm == p.0@ {
                                    assert(pairs_view(out@.push(p))[out@.len() as int].0 == mm);
                                } else {
                                    let jj = choose|jj: int|
                                        0 <= jj < out@.len() && (#[trigger] pairs_view(
                                            out@,
                                        )[jj]).0 == mm;
                                    assert(pairs_view(out@.push(p))[jj].0 == mm);
                                }
                            } else {
                                if exists|jj: int|
                                    0 <= jj < out@.push(p).len() && (#[trigger] pairs_view(
                                        out@.push(p),
                                    )[jj]).0 == mm {
                                    let jj = choose|jj: int|
                                        0 <= jj < out@.push(p).len() && (#[trigger] pairs_view(
                                            out@.push(p),
                                        )[jj]).0 == mm;
                                    if jj < out@.len() {
                                        assert(pairs_view(out@)[jj].0 == mm);
                                        assert(false);
                                    } else {
                                        assert(mm == p.0@);
                                        assert(false);
                                    }
                                }
                            }
                        }
                        seen = new_seen;
                    }
                    out.push(p);
                }
            },
            None => {
                proof {
                    assert(row_pick(rviews[i as int]) is None);
                }
            },
        }
        i = i + 1;
    }
    proof {
        assert(rviews.skip(n as int) =~= Seq::<AttributeRowV>::empty());
    }
    out
}

} // verus!
