//! The metadata aggregate scanner.
//!
//! The federation publishes one signed XML document holding thousands
//! of `<EntityDescriptor>` elements.  Rather than build a document tree
//! of the whole aggregate, the scanner walks the input once and yields
//! each top-level element, from its opening tag through its matching
//! closing tag, as a slice of the input.  It is tag-name based: it
//! interprets neither attributes nor nesting, which the metadata schema
//! rules out for entity descriptors.

use vstd::prelude::*;
use vstd::string::StrSliceExecFns;
use vstd::string::StringSliceAdditionalSpecFns;
use vstd::utf8::{
    decode_utf8, encode_utf8, encode_utf8_decode_utf8, encode_utf8_valid_utf8, valid_utf8,
    valid_utf8_split,
};
use crate::bytes::{
    bytes_le, bytes_le_exec, contains_bytes, find_bytes, find_from, first_match,
    lemma_ascii_at_is_boundary, lemma_boundary_after_ascii, lemma_bytes_le_total,
    lemma_first_match, matches_at, str_eq,
};
use crate::saml::{entity_info_of, parse_entity_info, DisplayNameV, EntityInfo, EntityInfoV};

verus! {

/// The bytes of the opening tag prefix `<EntityDescriptor`.
pub open spec fn open_tag() -> Seq<u8> {
    seq![
        60u8, 69u8, 110u8, 116u8, 105u8, 116u8, 121u8, 68u8, 101u8, 115u8, 99u8, 114u8,
        105u8, 112u8, 116u8, 111u8, 114u8,
    ]
}

/// The bytes of the closing tag `</EntityDescriptor>`.
pub open spec fn close_tag() -> Seq<u8> {
    seq![
        60u8, 47u8, 69u8, 110u8, 116u8, 105u8, 116u8, 121u8, 68u8, 101u8, 115u8, 99u8,
        114u8, 105u8, 112u8, 116u8, 111u8, 114u8, 62u8,
    ]
}

/// The spans `(start, end)` of the elements the scan yields, walking
/// the input from `from`: each span runs from an occurrence of the
/// opening tag through the end of the next closing tag, and the walk
/// resumes at that end.
pub open spec fn scan_spans(h: Seq<u8>, from: int) -> Seq<(int, int)>
    decreases h.len() - from + 1,
{
    match first_match(h, open_tag(), from) {
        Some(s) => match first_match(h, close_tag(), s) {
            Some(c) => {
                if from <= c && c + close_tag().len() <= h.len() {
                    seq![(s, c + close_tag().len())] + scan_spans(h, c + close_tag().len())
                } else {
                    // unreachable: a match lies at or after `from` and in bounds
                    seq![]
                }
            },
            None => seq![],
        },
        None => seq![],
    }
}

/// Every span the scan yields lies inside the input, opens with the
/// opening tag, ends with the closing tag, and the spans come in
/// strictly increasing, non-overlapping order.
pub proof fn lemma_scan_spans(h: Seq<u8>, from: int)
    requires
        0 <= from,
    ensures
        forall|k: int| 0 <= k < scan_spans(h, from).len() ==> {
            let span = #[trigger] scan_spans(h, from)[k];
            &&& from <= span.0
            &&& span.0 + open_tag().len() < span.1 <= h.len()
            &&& matches_at(h, open_tag(), span.0)
            &&& matches_at(h, close_tag(), span.1 - close_tag().len())
        },
        forall|k: int| 0 <= k && k + 1 < scan_spans(h, from).len() ==> (
        #[trigger] scan_spans(h, from)[k]).1 <= scan_spans(h, from)[k + 1].0,
    decreases h.len() - from + 1,
{
    let spans = scan_spans(h, from);
    lemma_first_match(h, open_tag(), from);
    if let Some(s) = first_match(h, open_tag(), from) {
        lemma_first_match(h, close_tag(), s);
        if let Some(c) = first_match(h, close_tag(), s) {
            let end = c + close_tag().len();
            if from <= c && end <= h.len() {
                lemma_scan_spans(h, end);
                let rest = scan_spans(h, end);
                assert(spans =~= seq![(s, end)] + rest);
                assert forall|k: int| 0 <= k < spans.len() implies {
                    let span = #[trigger] spans[k];
                    &&& from <= span.0
                    &&& span.0 + open_tag().len() < span.1 <= h.len()
                    &&& matches_at(h, open_tag(), span.0)
                    &&& matches_at(h, close_tag(), span.1 - close_tag().len())
                } by {
                    if k == 0 {
                        assert(spans[0] == (s, end));
                    } else {
                        assert(spans[k] == rest[k - 1]);
                    }
                }
                assert forall|k: int| 0 <= k && k + 1 < spans.len() implies (
                #[trigger] spans[k]).1 <= spans[k + 1].0 by {
                    if k == 0 {
                        assert((seq![(s, end)] + rest)[1] == rest[0]);
                        assert(end <= rest[0].0);
                    } else {
                        assert((seq![(s, end)] + rest)[k] == rest[k - 1]);
                        assert((seq![(s, end)] + rest)[k + 1] == rest[k]);
                        assert(rest[k - 1].1 <= rest[k].0);
                    }
                }
            }
        }
    }
}

/// Once the earlier positions are known free of matches, the first
/// match from `from` is pinned.
proof fn lemma_first_match_exact(h: Seq<u8>, pat: Seq<u8>, from: int, idx: int)
    requires
        0 <= from <= idx,
        matches_at(h, pat, idx),
        forall|j: int| from <= j < idx ==> !matches_at(h, pat, j),
    ensures
        first_match(h, pat, from) == Some(idx),
{
    lemma_first_match(h, pat, from);
    match first_match(h, pat, from) {
        Some(i) => {
            if i < idx {
                assert(!matches_at(h, pat, i));
            }
            if i > idx {
                assert(!matches_at(h, pat, idx));
            }
        },
        None => {
            assert(!matches_at(h, pat, idx));
        },
    }
}

/// A match at or past a prefix is a match in the suffix, at the
/// shifted position.
proof fn lemma_matches_shift(a: Seq<u8>, t: Seq<u8>, pat: Seq<u8>, d: int)
    requires
        0 <= d,
    ensures
        matches_at(a + t, pat, a.len() + d) == matches_at(t, pat, d),
{
    let h = a + t;
    if d + pat.len() <= t.len() {
        assert(h.subrange(a.len() + d, a.len() + d + pat.len()) =~= t.subrange(
            d,
            d + pat.len(),
        ));
    }
}

/// Searching past a prefix is searching the suffix, shifted.
proof fn lemma_first_match_shift(a: Seq<u8>, t: Seq<u8>, pat: Seq<u8>, d: int)
    requires
        0 <= d,
    ensures
        first_match(a + t, pat, a.len() + d) == match first_match(t, pat, d) {
            Some(i) => Some(a.len() + i),
            None => None::<int>,
        },
{
    let h = a + t;
    lemma_first_match(t, pat, d);
    match first_match(t, pat, d) {
        Some(i) => {
            lemma_matches_shift(a, t, pat, i);
            assert forall|j: int| a.len() + d <= j < a.len() + i implies !matches_at(
                h,
                pat,
                j,
            ) by {
                lemma_matches_shift(a, t, pat, j - a.len());
            }
            lemma_first_match_exact(h, pat, a.len() + d, a.len() + i);
        },
        None => {
            lemma_first_match(h, pat, a.len() + d);
            if let Some(j) = first_match(h, pat, a.len() + d) {
                lemma_matches_shift(a, t, pat, j - a.len());
                assert(!matches_at(t, pat, j - a.len()));
                assert(false);
            }
        },
    }
}

/// Scanning past a prefix finds as many elements as scanning the
/// suffix alone.
proof fn lemma_scan_shift(a: Seq<u8>, t: Seq<u8>, d: int)
    requires
        0 <= d,
    ensures
        scan_spans(a + t, a.len() + d).len() == scan_spans(t, d).len(),
    decreases t.len() - d + 1,
{
    let h = a + t;
    lemma_first_match_shift(a, t, open_tag(), d);
    match first_match(t, open_tag(), d) {
        Some(s) => {
            lemma_first_match(t, open_tag(), d);
            lemma_first_match_shift(a, t, close_tag(), s);
            match first_match(t, close_tag(), s) {
                Some(c) => {
                    lemma_first_match(t, close_tag(), s);
                    let end = c + close_tag().len();
                    if d <= c && end <= t.len() {
                        lemma_scan_shift(a, t, end);
                        assert(scan_spans(h, a.len() + d) =~= seq![
                            (a.len() + s, a.len() + end),
                        ] + scan_spans(h, a.len() + end));
                        assert(scan_spans(t, d) =~= seq![(s, end)] + scan_spans(t, end));
                    }
                },
                None => {},
            }
        },
        None => {},
    }
}

/// Markup in which the opening tag does not occur: what may stand
/// before, between and after the top-level elements.
pub open spec fn no_open_tag(s: Seq<u8>) -> bool {
    !contains_bytes(s, open_tag())
}

/// Only the opening tag's first byte is `<`.
proof fn lemma_open_tag_lt_only_first()
    ensures
        forall|k: int| 1 <= k < open_tag().len() ==> (#[trigger] open_tag()[k]) != 60u8,
{
    assert forall|k: int| 1 <= k < open_tag().len() implies (#[trigger] open_tag()[k])
        != 60u8 by {
        if k == 1 {
            assert(open_tag()[1] == 69u8);
        } else if k == 2 {
            assert(open_tag()[2] == 110u8);
        } else if k == 3 {
            assert(open_tag()[3] == 116u8);
        } else if k == 4 {
            assert(open_tag()[4] == 105u8);
        } else if k == 5 {
            assert(open_tag()[5] == 116u8);
        } else if k == 6 {
            assert(open_tag()[6] == 121u8);
        } else if k == 7 {
            assert(open_tag()[7] == 68u8);
        } else if k == 8 {
            assert(open_tag()[8] == 101u8);
        } else if k == 9 {
            assert(open_tag()[9] == 115u8);
        } else if k == 10 {
            assert(open_tag()[10] == 99u8);
        } else if k == 11 {
            assert(open_tag()[11] == 114u8);
        } else if k == 12 {
            assert(open_tag()[12] == 105u8);
        } else if k == 13 {
            assert(open_tag()[13] == 112u8);
        } else if k == 14 {
            assert(open_tag()[14] == 116u8);
        } else if k == 15 {
            assert(open_tag()[15] == 111u8);
        } else if k == 16 {
            assert(open_tag()[16] == 114u8);
        }
    }
}

/// A well-formed top-level element: it opens with the opening tag and
/// its first closing tag is its own suffix.
pub open spec fn wf_element(f: Seq<u8>) -> bool {
    &&& matches_at(f, open_tag(), 0)
    &&& f.len() >= open_tag().len() + close_tag().len()
    &&& first_match(f, close_tag(), 0) == Some(f.len() - close_tag().len())
}

/// An aggregate assembled from elements, with surrounding markup
/// before, between and after them.
pub open spec fn assemble(frags: Seq<Seq<u8>>, seps: Seq<Seq<u8>>) -> Seq<u8>
    recommends
        seps.len() == frags.len() + 1,
    decreases frags.len(),
{
    if frags.len() == 0 {
        seps[0]
    } else {
        seps[0] + (frags[0] + assemble(frags.drop_first(), seps.drop_first()))
    }
}

/// Law: the scan is exact.  An aggregate holding `k` well-formed
/// top-level elements, separated by markup in which the opening tag
/// does not occur, yields exactly `k` spans.
pub proof fn lemma_scan_counts_elements(frags: Seq<Seq<u8>>, seps: Seq<Seq<u8>>)
    requires
        seps.len() == frags.len() + 1,
        forall|i: int| 0 <= i < frags.len() ==> wf_element(#[trigger] frags[i]),
        forall|i: int| 0 <= i < seps.len() ==> no_open_tag(#[trigger] seps[i]),
    ensures
        scan_spans(assemble(frags, seps), 0).len() == frags.len(),
    decreases frags.len(),
{
    let h = assemble(frags, seps);
    if frags.len() == 0 {
        lemma_first_match(h, open_tag(), 0);
        if let Some(s) = first_match(h, open_tag(), 0) {
            assert(contains_bytes(seps[0], open_tag()));
            assert(false);
        }
    } else {
        let sep0 = seps[0];
        let f0 = frags[0];
        let tail = assemble(frags.drop_first(), seps.drop_first());
        let s0 = sep0.len() as int;
        let flen = f0.len() as int;
        let clen = close_tag().len() as int;
        assert(wf_element(f0));
        assert(h =~= sep0 + (f0 + tail));

        // The first opening tag stands exactly where the element starts.
        assert(matches_at(h, open_tag(), s0)) by {
            assert(h.subrange(s0, s0 + open_tag().len()) =~= f0.subrange(
                0,
                open_tag().len() as int,
            ));
        }
        assert forall|j: int| 0 <= j < s0 implies !matches_at(h, open_tag(), j) by {
            if matches_at(h, open_tag(), j) {
                if j + open_tag().len() <= s0 {
                    assert(h.subrange(j, j + open_tag().len()) =~= sep0.subrange(
                        j,
                        j + open_tag().len(),
                    ));
                    assert(matches_at(sep0, open_tag(), j));
                    assert(contains_bytes(sep0, open_tag()));
                    assert(false);
                } else {
                    lemma_open_tag_lt_only_first();
                    assert(h.subrange(j, j + open_tag().len())[s0 - j] == h[s0]);
                    assert(h[s0] == f0[0]);
                    assert(f0.subrange(0, open_tag().len() as int)[0] == f0[0]);
                    assert(f0[0] == open_tag()[0]);
                    assert(open_tag()[0] == 60u8);
                    assert(open_tag()[s0 - j] == 60u8);
                    assert(false);
                }
            }
        }
        lemma_first_match_exact(h, open_tag(), 0, s0);

        // The first closing tag from there is the element's suffix.
        lemma_first_match(f0, close_tag(), 0);
        assert(matches_at(h, close_tag(), s0 + flen - clen)) by {
            assert(matches_at(f0, close_tag(), flen - clen));
            assert(h.subrange(s0 + flen - clen, s0 + flen) =~= f0.subrange(
                flen - clen,
                flen,
            ));
        }
        assert forall|j: int| s0 <= j < s0 + flen - clen implies !matches_at(
            h,
            close_tag(),
            j,
        ) by {
            if matches_at(h, close_tag(), j) {
                assert(h.subrange(j, j + clen) =~= f0.subrange(j - s0, j - s0 + clen));
                assert(matches_at(f0, close_tag(), j - s0));
            }
        }
        lemma_first_match_exact(h, close_tag(), s0, s0 + flen - clen);

        // One span, then the rest of the aggregate scans on its own.
        let end = s0 + flen;
        assert(scan_spans(h, 0) =~= seq![(s0, end)] + scan_spans(h, end));
        assert(forall|i: int| 0 <= i < frags.drop_first().len() ==> wf_element(
            #[trigger] frags.drop_first()[i],
        ));
        assert(forall|i: int| 0 <= i < seps.drop_first().len() ==> no_open_tag(
            #[trigger] seps.drop_first()[i],
        ));
        lemma_scan_counts_elements(frags.drop_first(), seps.drop_first());
        assert((sep0 + f0) + tail =~= h);
        lemma_scan_shift(sep0 + f0, tail, 0);
        assert((sep0 + f0).len() + 0 == end);
    }
}

/// Splits the aggregate into the slices of its top-level
/// `<EntityDescriptor …>…</EntityDescriptor>` elements.
///
/// The result holds one slice per span of `scan_spans`, each the exact
/// byte range of the input that the span names.
pub fn entity_descriptor_fragments<'a>(xml: &'a str) -> (r: Vec<&'a str>)
    ensures
        r@.len() == scan_spans(xml.spec_bytes(), 0).len(),
        forall|k: int| 0 <= k < r@.len() ==> (#[trigger] r@[k]).spec_bytes()
            == xml.spec_bytes().subrange(
            scan_spans(xml.spec_bytes(), 0)[k].0,
            scan_spans(xml.spec_bytes(), 0)[k].1,
        ),
{
    let ghost h = xml.spec_bytes();
    proof {
        broadcast use encode_utf8_valid_utf8;

        assert(valid_utf8(h));
    }
    let bytes = xml.as_bytes_vec();
    let open: Vec<u8> = open_tag_vec();
    let close: Vec<u8> = close_tag_vec();
    let n: usize = bytes.len();
    let mut frags: Vec<&'a str> = Vec::new();
    let mut from: usize = 0;
    let ghost mut done: Seq<(int, int)> = Seq::empty();
    loop
        invariant
            h == xml.spec_bytes(),
            n == h.len(),
            bytes@ == h,
            open@ == open_tag(),
            close@ == close_tag(),
            valid_utf8(h),
            0 <= from <= n,
            scan_spans(h, 0) == done + scan_spans(h, from as int),
            frags@.len() == done.len(),
            forall|k: int| 0 <= k < done.len() ==> (#[trigger] frags@[k]).spec_bytes()
                == h.subrange(done[k].0, done[k].1),
        ensures
            frags@.len() == scan_spans(h, 0).len(),
            forall|k: int| 0 <= k < frags@.len() ==> (#[trigger] frags@[k]).spec_bytes()
                == h.subrange(scan_spans(h, 0)[k].0, scan_spans(h, 0)[k].1),
        decreases n - from,
    {
        let s = match find_from(&bytes, &open, from) {
            Some(s) => s,
            None => {
                proof {
                    assert(scan_spans(h, from as int) =~= Seq::<(int, int)>::empty());
                    assert(scan_spans(h, 0) =~= done);
                }
                break;
            },
        };
        let c = match find_from(&bytes, &close, s) {
            Some(c) => c,
            None => {
                proof {
                    assert(scan_spans(h, from as int) =~= Seq::<(int, int)>::empty());
                    assert(scan_spans(h, 0) =~= done);
                }
                break;
            },
        };
        proof {
            lemma_first_match(h, open_tag(), from as int);
            lemma_first_match(h, close_tag(), s as int);
        }
        let end = c + 19;
        proof {
            assert(matches_at(h, close_tag(), c as int));
            assert(h[c as int] == close_tag()[0]) by {
                assert(h.subrange(c as int, c + 19)[0] == close_tag()[0]);
            }
            assert(h[end - 1] == close_tag()[18]) by {
                assert(h.subrange(c as int, c + 19)[18] == close_tag()[18]);
            }
            assert(h[s as int] == open_tag()[0]) by {
                assert(matches_at(h, open_tag(), s as int));
                assert(h.subrange(s as int, s + 17)[0] == open_tag()[0]);
            }
            lemma_ascii_at_is_boundary(h, s as int);
        }
        let pair = xml.split_at(s);
        let tail = pair.1;
        proof {
            assert(tail.spec_bytes() =~= h.subrange(s as int, n as int));
            valid_utf8_split(h, s as int);
            assert(tail.spec_bytes()[end - s - 1] == h[end - 1]);
            lemma_boundary_after_ascii(tail.spec_bytes(), end - s);
        }
        let frag_pair = tail.split_at(end - s);
        let frag = frag_pair.0;
        proof {
            assert(frag.spec_bytes() =~= h.subrange(s as int, end as int)) by {
                assert(frag.spec_bytes() =~= tail.spec_bytes().subrange(0, end - s));
            }
            assert(scan_spans(h, from as int) =~= seq![(s as int, end as int)] + scan_spans(
                h,
                end as int,
            ));
            done = done.push((s as int, end as int));
            assert(scan_spans(h, 0) =~= done + scan_spans(h, end as int));
        }
        frags.push(frag);
        from = end;
    }
    frags
}

/// The opening tag prefix as a byte string.
fn open_tag_vec() -> (r: Vec<u8>)
    ensures
        r@ == open_tag(),
{
    let r: Vec<u8> = vec![
        60u8, 69u8, 110u8, 116u8, 105u8, 116u8, 121u8, 68u8, 101u8, 115u8, 99u8, 114u8,
        105u8, 112u8, 116u8, 111u8, 114u8,
    ];
    proof {
        assert(r@ =~= open_tag());
    }
    r
}

/// The closing tag as a byte string.
fn close_tag_vec() -> (r: Vec<u8>)
    ensures
        r@ == close_tag(),
{
    let r: Vec<u8> = vec![
        60u8, 47u8, 69u8, 110u8, 116u8, 105u8, 116u8, 121u8, 68u8, 101u8, 115u8, 99u8,
        114u8, 105u8, 112u8, 116u8, 111u8, 114u8, 62u8,
    ];
    proof {
        assert(r@ =~= close_tag());
    }
    r
}

/// The bytes of the literal `IDPSSODescriptor`, the cheap filter that
/// keeps only identity-provider entities.
pub open spec fn idp_marker() -> Seq<u8> {
    seq![
        73u8, 68u8, 80u8, 83u8, 83u8, 79u8, 68u8, 101u8, 115u8, 99u8, 114u8, 105u8, 112u8,
        116u8, 111u8, 114u8,
    ]
}

/// The IdP marker as a byte string.
fn idp_marker_vec() -> (r: Vec<u8>)
    ensures
        r@ == idp_marker(),
{
    let r: Vec<u8> = vec![
        73u8, 68u8, 80u8, 83u8, 83u8, 79u8, 68u8, 101u8, 115u8, 99u8, 114u8, 105u8, 112u8,
        116u8, 111u8, 114u8,
    ];
    proof {
        assert(r@ =~= idp_marker());
    }
    r
}

/// One row of the discovery index.
pub struct EntityEntry {
    pub entity_id: String,
    pub display_name: String,
}

/// The ghost image of an `EntityEntry`.
pub struct EntityEntryV {
    pub entity_id: Seq<char>,
    pub display_name: Seq<char>,
}

impl View for EntityEntry {
    type V = EntityEntryV;

    open spec fn view(&self) -> EntityEntryV {
        EntityEntryV { entity_id: self.entity_id@, display_name: self.display_name@ }
    }
}

impl Clone for EntityEntry {
    fn clone(&self) -> (r: Self)
        ensures
            r == *self,
    {
        EntityEntry {
            entity_id: self.entity_id.clone(),
            display_name: self.display_name.clone(),
        }
    }
}

/// The ghost images of a sequence of entries.
pub open spec fn entries_view(s: Seq<EntityEntry>) -> Seq<EntityEntryV> {
    s.map_values(|e: EntityEntry| e@)
}

/// The value of the first display name tagged `xml:lang="en"`.
pub open spec fn first_en_name(names: Seq<DisplayNameV>) -> Option<Seq<char>>
    decreases names.len(),
{
    if names.len() == 0 {
        None
    } else if names[0].lang == Some("en"@) {
        Some(names[0].value)
    } else {
        first_en_name(names.drop_first())
    }
}

/// The display name chosen for an entity: the first English
/// organization display name, else the first display name of any
/// language, else the entity ID itself.
pub open spec fn display_name_of(info: EntityInfoV) -> Seq<char> {
    match first_en_name(info.display_names) {
        Some(n) => n,
        None => {
            if info.display_names.len() > 0 {
                info.display_names[0].value
            } else {
                match info.entity_id {
                    Some(id) => id,
                    None => Seq::empty(),
                }
            }
        },
    }
}

/// What one fragment contributes to the index: nothing unless its text
/// holds `IDPSSODescriptor`, it parses, and it names an entity;
/// otherwise the entity ID and its chosen display name.
pub open spec fn fragment_entry(frag: Seq<char>) -> Option<EntityEntryV> {
    if !contains_bytes(encode_utf8(frag), idp_marker()) {
        None
    } else {
        match entity_info_of(frag) {
            None => None,
            Some(info) => match info.entity_id {
                None => None,
                Some(id) => Some(
                    EntityEntryV { entity_id: id, display_name: display_name_of(info) },
                ),
            },
        }
    }
}

/// The entries the fragments contribute, in fragment order.
pub open spec fn entries_of_fragments(frags: Seq<Seq<char>>) -> Seq<EntityEntryV>
    decreases frags.len(),
{
    if frags.len() == 0 {
        Seq::empty()
    } else {
        match fragment_entry(frags[0]) {
            Some(e) => seq![e] + entries_of_fragments(frags.drop_first()),
            None => entries_of_fragments(frags.drop_first()),
        }
    }
}

/// Entry extraction distributes over concatenation of fragment lists.
pub proof fn lemma_entries_concat(a: Seq<Seq<char>>, b: Seq<Seq<char>>)
    ensures
        entries_of_fragments(a + b) == entries_of_fragments(a) + entries_of_fragments(b),
    decreases a.len(),
{
    if a.len() == 0 {
        assert(a + b =~= b);
        assert(entries_of_fragments(a) + entries_of_fragments(b) =~= entries_of_fragments(b));
    } else {
        assert((a + b).len() > 0);
        assert((a + b)[0] == a[0]);
        assert((a + b).drop_first() =~= a.drop_first() + b);
        lemma_entries_concat(a.drop_first(), b);
        match fragment_entry(a[0]) {
            Some(e) => {
                assert(entries_of_fragments(a + b) =~= seq![e] + (entries_of_fragments(
                    a.drop_first(),
                ) + entries_of_fragments(b)));
                assert(entries_of_fragments(a) + entries_of_fragments(b) =~= seq![e]
                    + (entries_of_fragments(a.drop_first()) + entries_of_fragments(b)));
            },
            None => {},
        }
    }
}

/// Law: the IdP filter.  Every entry the extraction emits originates
/// in a fragment whose text holds `IDPSSODescriptor`; an entity
/// without it is never emitted.
pub proof fn lemma_idp_filter(frags: Seq<Seq<char>>)
    ensures
        forall|e: EntityEntryV| entries_of_fragments(frags).contains(e) ==> exists|k: int|
            0 <= k < frags.len() && contains_bytes(
                encode_utf8(#[trigger] frags[k]),
                idp_marker(),
            ) && fragment_entry(frags[k]) == Some(e),
    decreases frags.len(),
{
    if frags.len() > 0 {
        lemma_idp_filter(frags.drop_first());
        let rest = entries_of_fragments(frags.drop_first());
        assert forall|e: EntityEntryV| entries_of_fragments(frags).contains(e) implies exists|
            k: int,
        |
            0 <= k < frags.len() && contains_bytes(
                encode_utf8(#[trigger] frags[k]),
                idp_marker(),
            ) && fragment_entry(frags[k]) == Some(e) by {
            let produced = fragment_entry(frags[0]);
            if produced == Some(e) {
                assert(contains_bytes(encode_utf8(frags[0]), idp_marker()));
                assert(0 <= 0 < frags.len() && contains_bytes(
                    encode_utf8(frags[0]),
                    idp_marker(),
                ) && fragment_entry(frags[0]) == Some(e));
            } else {
                assert(rest.contains(e)) by {
                    let i = choose|i: int|
                        0 <= i < entries_of_fragments(frags).len() && entries_of_fragments(
                            frags,
                        )[i] == e;
                    match produced {
                        Some(x) => {
                            assert(entries_of_fragments(frags) =~= seq![x] + rest);
                            assert(rest[i - 1] == e);
                        },
                        None => {
                            assert(rest[i] == e);
                        },
                    }
                }
                let k0 = choose|k0: int|
                    0 <= k0 < frags.drop_first().len() && contains_bytes(
                        encode_utf8(frags.drop_first()[k0]),
                        idp_marker(),
                    ) && fragment_entry(frags.drop_first()[k0]) == Some(e);
                assert(frags.drop_first()[k0] == frags[k0 + 1]);
                assert(0 <= k0 + 1 < frags.len() && contains_bytes(
                    encode_utf8(frags[k0 + 1]),
                    idp_marker(),
                ) && fragment_entry(frags[k0 + 1]) == Some(e));
            }
        }
    }
}

/// What a single fragment's list contributes: its own entry, if any.
pub proof fn lemma_entries_singleton(f: Seq<char>)
    ensures
        entries_of_fragments(seq![f]) == match fragment_entry(f) {
            Some(e) => seq![e],
            None => Seq::<EntityEntryV>::empty(),
        },
{
    let s = seq![f];
    assert(s.len() == 1);
    assert(s[0] == f);
    assert(s.drop_first() =~= Seq::<Seq<char>>::empty());
    assert(entries_of_fragments(Seq::<Seq<char>>::empty()) == Seq::<EntityEntryV>::empty());
    match fragment_entry(f) {
        Some(e) => {
            assert(entries_of_fragments(s) =~= seq![e]);
        },
        None => {
            assert(entries_of_fragments(s) =~= Seq::<EntityEntryV>::empty());
        },
    }
}

/// The byte-wise sort key of an entry: the UTF-8 bytes of its display
/// name.
pub open spec fn name_bytes(e: EntityEntryV) -> Seq<u8> {
    encode_utf8(e.display_name)
}

/// Sorted non-decreasing by display name, byte-wise.
pub open spec fn sorted_by_name(s: Seq<EntityEntryV>) -> bool {
    forall|i: int| 0 <= i && i + 1 < s.len() ==> bytes_le(
        name_bytes(#[trigger] s[i]),
        name_bytes(s[i + 1]),
    )
}

/// Every earlier entry sorts at or before every later one: adjacent
/// sortedness carries across by transitivity.
proof fn lemma_sorted_le(s: Seq<EntityEntryV>, i: int, k: int)
    requires
        sorted_by_name(s),
        0 <= i <= k < s.len(),
    ensures
        bytes_le(name_bytes(s[i]), name_bytes(s[k])),
    decreases k - i,
{
    if i == k {
        lemma_bytes_le_total(name_bytes(s[i]), name_bytes(s[i]));
    } else {
        lemma_sorted_le(s, i, k - 1);
        crate::bytes::lemma_bytes_le_trans(
            name_bytes(s[i]),
            name_bytes(s[k - 1]),
            name_bytes(s[k]),
        );
    }
}

/// Where a stable insertion files an entry: after every entry that
/// sorts at or before it, before the rest.
pub open spec fn stable_insert(s: Seq<EntityEntryV>, e: EntityEntryV) -> Seq<EntityEntryV>
    decreases s.len(),
{
    if s.len() == 0 {
        seq![e]
    } else if bytes_le(name_bytes(s.last()), name_bytes(e)) {
        s.push(e)
    } else {
        stable_insert(s.drop_last(), e).push(s.last())
    }
}

/// The stable, byte-wise non-decreasing ordering of the entries: each
/// in turn filed after its equals.
pub open spec fn stable_sorted_of(s: Seq<EntityEntryV>) -> Seq<EntityEntryV>
    decreases s.len(),
{
    if s.len() == 0 {
        Seq::empty()
    } else {
        stable_insert(stable_sorted_of(s.drop_last()), s.last())
    }
}

/// In a sorted list, the stable insertion point of `e` is the first
/// index whose entry sorts strictly after it.
proof fn lemma_stable_insert_at(s: Seq<EntityEntryV>, e: EntityEntryV, j: int)
    requires
        sorted_by_name(s),
        0 <= j <= s.len(),
        forall|k: int| 0 <= k < j ==> bytes_le(
            name_bytes(#[trigger] s[k]),
            name_bytes(e),
        ),
        j < s.len() ==> !bytes_le(name_bytes(s[j]), name_bytes(e)),
    ensures
        stable_insert(s, e) == s.insert(j, e),
    decreases s.len(),
{
    if s.len() == 0 {
        assert(stable_insert(s, e) =~= s.insert(0, e));
    } else if bytes_le(name_bytes(s.last()), name_bytes(e)) {
        if j < s.len() {
            lemma_sorted_le(s, j, s.len() - 1);
            crate::bytes::lemma_bytes_le_trans(
                name_bytes(s[j]),
                name_bytes(s.last()),
                name_bytes(e),
            );
            assert(false);
        }
        assert(s.insert(s.len() as int, e) =~= s.push(e));
    } else {
        assert(j < s.len());
        assert(sorted_by_name(s.drop_last())) by {
            assert(forall|k: int| 0 <= k && k + 1 < s.drop_last().len()
                ==> bytes_le(
                name_bytes(#[trigger] s.drop_last()[k]),
                name_bytes(s.drop_last()[k + 1]),
            ));
        }
        assert(forall|k: int| 0 <= k < j ==> bytes_le(
            name_bytes(#[trigger] s.drop_last()[k]),
            name_bytes(e),
        ));
        if j < s.len() - 1 {
            assert(s.drop_last()[j] == s[j]);
        }
        lemma_stable_insert_at(s.drop_last(), e, j);
        assert(stable_insert(s, e) =~= s.insert(j, e)) by {
            assert(stable_insert(s, e) == s.drop_last().insert(j, e).push(s.last()));
            assert forall|p: int| 0 <= p < s.insert(j, e).len() implies s.drop_last().insert(
                j,
                e,
            ).push(s.last())[p] == s.insert(j, e)[p] by {
                if p < j {
                    assert(s.insert(j, e)[p] == s[p]);
                    assert(s.drop_last().insert(j, e)[p] == s.drop_last()[p]);
                } else if p == j {
                    assert(s.insert(j, e)[p] == e);
                    assert(s.drop_last().insert(j, e)[p] == e);
                } else if p < s.len() {
                    assert(s.insert(j, e)[p] == s[p - 1]);
                    assert(s.drop_last().insert(j, e)[p] == s.drop_last()[p - 1]);
                } else {
                    assert(s.insert(j, e)[p] == s[p - 1]);
                }
            }
        }
    }
}

/// Whether `a`'s display name sorts at or before `b`'s, byte-wise.
fn entry_le(a: &EntityEntry, b: &EntityEntry) -> (r: bool)
    ensures
        r == bytes_le(name_bytes(a@), name_bytes(b@)),
{
    let av = a.display_name.as_str().as_bytes_vec();
    let bv = b.display_name.as_str().as_bytes_vec();
    bytes_le_exec(&av, &bv)
}

/// Sorts entries by display name, byte-wise non-decreasing and
/// stable: the result is exactly `stable_sorted_of` the input, so
/// entries with equal names keep their relative order.
fn sort_entries(v: Vec<EntityEntry>) -> (r: Vec<EntityEntry>)
    ensures
        sorted_by_name(entries_view(r@)),
        entries_view(r@) == stable_sorted_of(entries_view(v@)),
        entries_view(r@).to_multiset() == entries_view(v@).to_multiset(),
{
    broadcast use vstd::seq_lib::group_to_multiset_ensures;

    let n: usize = v.len();
    let mut out: Vec<EntityEntry> = Vec::new();
    let mut i: usize = 0;
    proof {
        assert(entries_view(v@).take(0) =~= Seq::<EntityEntryV>::empty());
    }
    while i < n
        invariant
            0 <= i <= n,
            n == v@.len(),
            sorted_by_name(entries_view(out@)),
            entries_view(out@) == stable_sorted_of(entries_view(v@).take(i as int)),
            entries_view(out@).to_multiset() == entries_view(v@.subrange(0, i as int))
                .to_multiset(),
        decreases n - i,
    {
        let e = v[i].clone();
        let mut j: usize = 0;
        loop
            invariant
                0 <= j <= out@.len(),
                sorted_by_name(entries_view(out@)),
                forall|k: int| 0 <= k < j ==> bytes_le(
                    name_bytes(#[trigger] entries_view(out@)[k]),
                    name_bytes(e@),
                ),
            ensures
                0 <= j <= out@.len(),
                forall|k: int| 0 <= k < j ==> bytes_le(
                    name_bytes(#[trigger] entries_view(out@)[k]),
                    name_bytes(e@),
                ),
                j < out@.len() ==> !bytes_le(
                    name_bytes(entries_view(out@)[j as int]),
                    name_bytes(e@),
                ),
                j < out@.len() ==> bytes_le(
                    name_bytes(e@),
                    name_bytes(entries_view(out@)[j as int]),
                ),
            decreases out@.len() - j,
        {
            if j == out.len() {
                break;
            }
            if !entry_le(&out[j], &e) {
                proof {
                    lemma_bytes_le_total(name_bytes(entries_view(out@)[j as int]), name_bytes(e@));
                }
                break;
            }
            j = j + 1;
        }
        let ghost old_out = out@;
        let ghost old_views = entries_view(out@);
        proof {
            lemma_stable_insert_at(old_views, e@, j as int);
        }
        out.insert(j, e);
        proof {
            let views = entries_view(out@);
            assert(out@ == old_out.insert(j as int, e));
            assert(views =~= old_views.insert(j as int, e@)) by {
                assert(out@.len() == old_out.len() + 1);
                assert forall|k: int| 0 <= k < views.len() implies views[k] == old_views.insert(
                    j as int,
                    e@,
                )[k] by {
                    assert(views[k] == out@[k]@);
                }
            }
            assert forall|p: int| 0 <= p && p + 1 < views.len() implies bytes_le(
                name_bytes(#[trigger] views[p]),
                name_bytes(views[p + 1]),
            ) by {
                assert(views == old_views.insert(j as int, e@));
                if p + 1 < j {
                    assert(views[p] == old_views[p] && views[p + 1] == old_views[p + 1]);
                } else if p + 1 == j {
                    assert(views[p] == old_views[p] && views[p + 1] == e@);
                } else if p == j {
                    assert(views[p] == e@ && views[p + 1] == old_views[p]);
                } else {
                    assert(views[p] == old_views[p - 1] && views[p + 1] == old_views[p]);
                }
            }
            assert(views.to_multiset() =~= old_views.to_multiset().insert(e@)) by {
                views.to_multiset_ensures();
                assert(views.remove(j as int) =~= old_views);
                assert(views[j as int] == e@);
                assert(views.remove(j as int).to_multiset() =~= views.to_multiset().remove(e@));
                assert(views.contains(e@)) by {
                    assert(views[j as int] == e@);
                }
                assert(views.to_multiset().count(e@) > 0);
                assert forall|x: EntityEntryV| true implies views.to_multiset().count(x)
                    == old_views.to_multiset().insert(e@).count(x) by {
                    if x == e@ {
                        assert(old_views.to_multiset().count(x) == views.to_multiset().remove(
                            e@,
                        ).count(x));
                    } else {
                        assert(old_views.to_multiset().count(x) == views.to_multiset().remove(
                            e@,
                        ).count(x));
                    }
                }
            }
            let prev = entries_view(v@.subrange(0, i as int));
            assert(entries_view(v@.subrange(0, i + 1)) =~= prev.push(v@[i as int]@));
            prev.to_multiset_ensures();
            assert(prev.push(v@[i as int]@).to_multiset() =~= prev.to_multiset().insert(
                v@[i as int]@,
            ));
            assert(e@ == v@[i as int]@);
            let vs = entries_view(v@);
            assert(vs.take(i + 1).drop_last() =~= vs.take(i as int));
            assert(vs.take(i + 1).last() == vs[i as int]);
            assert(vs[i as int] == v@[i as int]@);
            assert(stable_sorted_of(vs.take(i + 1)) == stable_insert(
                stable_sorted_of(vs.take(i as int)),
                e@,
            ));
            assert(views == old_views.insert(j as int, e@));
            assert(views == stable_sorted_of(vs.take(i + 1)));
        }
        i = i + 1;
    }
    proof {
        assert(v@.subrange(0, n as int) =~= v@);
        assert(entries_view(v@).take(n as int) =~= entries_view(v@));
    }
    out
}

/// Chooses the display name for a parsed entity, as `display_name_of`
/// describes: the first English name, else the first name, else the
/// entity ID.
pub fn choose_display_name(info: &EntityInfo) -> (r: String)
    ensures
        r@ == display_name_of(info@),
{
    let n: usize = info.display_names.len();
    let mut i: usize = 0;
    proof {
        assert(info@.display_names.skip(0) =~= info@.display_names);
    }
    while i < n
        invariant
            0 <= i <= n,
            n == info.display_names@.len(),
            first_en_name(info@.display_names) == first_en_name(
                info@.display_names.skip(i as int),
            ),
        decreases n - i,
    {
        let name = &info.display_names[i];
        proof {
            assert(info@.display_names[i as int] == info.display_names@[i as int]@);
            assert(info@.display_names.skip(i as int)[0] == info@.display_names[i as int]);
            assert(info@.display_names.skip(i as int).drop_first() =~= info@.display_names.skip(
                i + 1,
            ));
        }
        let is_en = match &name.lang {
            Some(l) => str_eq(l.as_str(), "en"),
            None => false,
        };
        if is_en {
            return name.value.clone();
        }
        i = i + 1;
    }
    proof {
        assert(info@.display_names.skip(n as int) =~= Seq::<DisplayNameV>::empty());
    }
    if info.display_names.len() > 0 {
        proof {
            assert(info@.display_names[0] == info.display_names@[0]@);
        }
        return info.display_names[0].value.clone();
    }
    match &info.entity_id {
        Some(id) => id.clone(),
        None => String::new(),
    }
}

/// The character views of the fragments the scan yields.
pub open spec fn fragment_views(h: Seq<u8>) -> Seq<Seq<char>> {
    scan_spans(h, 0).map_values(|sp: (int, int)| decode_utf8(h.subrange(sp.0, sp.1)))
}

/// Extracts the discovery-index rows from the metadata aggregate.
///
/// The aggregate is scanned into entity-descriptor fragments; a
/// fragment contributes a row exactly when its text holds
/// `IDPSSODescriptor`, it parses, and it names an entity — then the
/// row carries the entity ID and the chosen display name.  The rows
/// come out stably sorted, non-decreasing by display name, byte-wise:
/// the result is exactly the stable ordering of the fragments' rows.
pub fn parse_idp_entries(xml: &str) -> (r: Vec<EntityEntry>)
    ensures
        sorted_by_name(entries_view(r@)),
        entries_view(r@) == stable_sorted_of(
            entries_of_fragments(fragment_views(xml.spec_bytes())),
        ),
        entries_view(r@).to_multiset() == entries_of_fragments(
            fragment_views(xml.spec_bytes()),
        ).to_multiset(),
{
    let ghost h = xml.spec_bytes();
    let frags = entity_descriptor_fragments(xml);
    let ghost fviews = frags@.map_values(|s: &str| s@);
    proof {
        broadcast use encode_utf8_decode_utf8;

        assert(fviews =~= fragment_views(h)) by {
            assert forall|k: int| 0 <= k < fviews.len() implies fviews[k] == fragment_views(
                h,
            )[k] by {
                assert(frags@[k].spec_bytes() == h.subrange(
                    scan_spans(h, 0)[k].0,
                    scan_spans(h, 0)[k].1,
                ));
                assert(frags@[k]@ == decode_utf8(encode_utf8(frags@[k]@)));
            }
        }
    }
    let marker = idp_marker_vec();
    let m: usize = frags.len();
    let mut acc: Vec<EntityEntry> = Vec::new();
    let mut i: usize = 0;
    while i < m
        invariant
            0 <= i <= m,
            m == frags@.len(),
            marker@ == idp_marker(),
            fviews == frags@.map_values(|s: &str| s@),
            entries_view(acc@) == entries_of_fragments(fviews.take(i as int)),
        decreases m - i,
    {
        let frag: &str = frags[i];
        let fb = frag.as_bytes_vec();
        proof {
            assert(fviews[i as int] == frag@);
            assert(fb@ == encode_utf8(frag@));
            assert(fviews.take(i + 1) =~= fviews.take(i as int) + seq![frag@]);
            lemma_entries_concat(fviews.take(i as int), seq![frag@]);
            lemma_entries_singleton(frag@);
        }
        if find_bytes(&fb, &marker) {
            match parse_entity_info(frag) {
                Some(info) => {
                    let name = choose_display_name(&info);
                    match &info.entity_id {
                        Some(id) => {
                            let entry = EntityEntry {
                                entity_id: id.clone(),
                                display_name: name,
                            };
                            proof {
                                assert(entity_info_of(frag@) == Some(info@));
                                assert(info@.entity_id == Some(id@));
                                assert(fragment_entry(frag@) == Some(entry@));
                                assert(entries_of_fragments(seq![frag@]) == seq![entry@]);
                                assert(entries_view(acc@.push(entry)) =~= entries_view(
                                    acc@,
                                ).push(entry@));
                                assert(entries_of_fragments(fviews.take(i + 1)) =~= entries_view(
                                    acc@,
                                ).push(entry@));
                            }
                            acc.push(entry);
                        },
                        None => {
                            proof {
                                assert(entity_info_of(frag@) == Some(info@));
                                assert(info@.entity_id is None);
                                assert(fragment_entry(frag@) is None);
                                assert(entries_of_fragments(fviews.take(i + 1))
                                    =~= entries_of_fragments(fviews.take(i as int)));
                            }
                        },
                    }
                },
                None => {
                    proof {
                        assert(entity_info_of(frag@) is None);
                        assert(fragment_entry(frag@) is None);
                        assert(entries_of_fragments(fviews.take(i + 1)) =~= entries_of_fragments(
                            fviews.take(i as int),
                        ));
                    }
                },
            }
        } else {
            proof {
                assert(!contains_bytes(encode_utf8(frag@), idp_marker()));
                assert(fragment_entry(frag@) is None);
                assert(entries_of_fragments(fviews.take(i + 1)) =~= entries_of_fragments(
                    fviews.take(i as int),
                ));
            }
        }
        i = i + 1;
    }
    proof {
        assert(fviews.take(m as int) =~= fviews);
    }
    sort_entries(acc)
}

} // verus!
