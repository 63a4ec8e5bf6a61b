//! The Link-header boundary algorithm shared by both pagination strategies,
//! and the strategy interface that renders its abstract link descriptors.

use crate::digits::{dec_int, i32_to_dec};
use vstd::arithmetic::div_mod::{
    lemma_div_multiples_vanish, lemma_div_pos_is_pos, lemma_fundamental_div_mod,
    lemma_mod_pos_bound,
};
use vstd::prelude::*;
use vstd::string::StringExecFns;

verus! {

/// The meaning of a navigational link, per Link header conventions.
#[derive(Clone, Copy, Debug)]
pub enum LinkRelation {
    First,
    Prev,
    Next,
    Last,
}

/// An abstract link: which relation it carries, the page size its URL should
/// advertise, and the absolute item offset it points at.
#[derive(Clone, Copy, Debug)]
pub struct LinkDescriptor {
    pub relation: LinkRelation,
    pub items_per_page: i32,
    pub offset: i32,
}

/// The defensive floor on the page size: anything nonpositive becomes 1.
pub open spec fn spec_ipp_floor(items_per_page: int) -> int {
    if items_per_page <= 0 {
        1
    } else {
        items_per_page
    }
}

/// The offset of the final page's first item: one page back from `total`
/// when `total` is an exact multiple of the page size, else the largest
/// multiple of the page size not above `total`.
pub open spec fn spec_last_offset(total: int, ipp: int) -> int {
    if total % ipp == 0 {
        total - ipp
    } else {
        (total / ipp) * ipp
    }
}

pub open spec fn spec_descriptor(relation: LinkRelation, ipp: int, offset: int) -> LinkDescriptor {
    LinkDescriptor { relation, items_per_page: ipp as i32, offset: offset as i32 }
}

/// Which links a page of a collection gets, and where they point: the
/// boundary-case algorithm, in absolute item offsets.
///
/// At or past the last page, an empty collection still advertises synthetic
/// `next`/`prev` neighbours; a collection that fits on one page gets only
/// `first`, its advertised page size rewritten to the collection's size; a
/// true last page gets `first` and `prev`. The first page gets `next` and
/// `last`; a middle page gets all four relations.
pub open spec fn spec_link_descriptors(total: int, page: int, items_per_page: int) -> Seq<
    LinkDescriptor,
> {
    let ipp = spec_ipp_floor(items_per_page);
    let offset = page * ipp;
    let last_offset = spec_last_offset(total, ipp);
    if offset >= last_offset {
        if total == 0 {
            seq![
                spec_descriptor(LinkRelation::First, ipp, 0),
                spec_descriptor(LinkRelation::Next, ipp, (offset / ipp + 1) * ipp),
                spec_descriptor(LinkRelation::Prev, ipp, (offset / ipp - 1) * ipp),
            ]
        } else if total <= ipp {
            seq![spec_descriptor(LinkRelation::First, total, 0)]
        } else {
            seq![
                spec_descriptor(LinkRelation::First, ipp, 0),
                spec_descriptor(LinkRelation::Prev, ipp, last_offset - ipp),
            ]
        }
    } else if offset < ipp {
        seq![
            spec_descriptor(LinkRelation::Next, ipp, ipp),
            spec_descriptor(LinkRelation::Last, ipp, last_offset),
        ]
    } else {
        seq![
            spec_descriptor(LinkRelation::First, ipp, 0),
            spec_descriptor(LinkRelation::Next, ipp, (offset / ipp + 1) * ipp),
            spec_descriptor(LinkRelation::Prev, ipp, (offset / ipp - 1) * ipp),
            spec_descriptor(LinkRelation::Last, ipp, last_offset),
        ]
    }
}

/// Computes the link descriptors for one page of a collection.
pub fn link_descriptors(total: i32, page: i32, items_per_page: i32) -> (r: Vec<LinkDescriptor>)
    requires
        total >= 0,
        page >= 0,
        (page as int + 1) * spec_ipp_floor(items_per_page as int) <= i32::MAX as int,
    ensures
        r@ == spec_link_descriptors(total as int, page as int, items_per_page as int),
        forall|i: int| 0 <= i < r@.len() ==> 1 <= (#[trigger] r@[i]).items_per_page,
{
    let ipp: i32 = if items_per_page <= 0 {
        1
    } else {
        items_per_page
    };
    proof {
        lemma_div_multiples_vanish(page as int, ipp as int);
        assert((page as int + 1) * (ipp as int) == page as int * (ipp as int) + ipp as int)
            by (nonlinear_arith);
        assert((page as int - 1) * (ipp as int) == page as int * (ipp as int) - ipp as int)
            by (nonlinear_arith);
        assert(page as int * (ipp as int) >= 0) by (nonlinear_arith)
            requires
                page as int >= 0,
                ipp as int >= 1,
        ;
    }
    let offset: i32 = page * ipp;
    let rem: i32 = ((total as u32) % (ipp as u32)) as i32;
    let quo: i32 = ((total as u32) / (ipp as u32)) as i32;
    proof {
        lemma_fundamental_div_mod(total as int, ipp as int);
        lemma_mod_pos_bound(total as int, ipp as int);
        lemma_div_pos_is_pos(total as int, ipp as int);
        assert(rem as int == (total as int) % (ipp as int));
        assert(quo as int == (total as int) / (ipp as int));
        assert((ipp as int) * (quo as int) + (rem as int) == total as int);
        assert((quo as int) * (ipp as int) == (ipp as int) * (quo as int)) by (nonlinear_arith);
        assert(quo as int <= (ipp as int) * (quo as int)) by (nonlinear_arith)
            requires
                quo as int >= 0,
                ipp as int >= 1,
        ;
        assert(0 <= (ipp as int) * (quo as int)) by (nonlinear_arith)
            requires
                quo as int >= 0,
                ipp as int >= 1,
        ;
    }
    let last_offset: i32 = if rem == 0 {
        total - ipp
    } else {
        quo * ipp
    };
    let mut r: Vec<LinkDescriptor> = Vec::new();
    if offset >= last_offset {
        if total == 0 {
            r.push(LinkDescriptor { relation: LinkRelation::First, items_per_page: ipp, offset: 0 });
            r.push(
                LinkDescriptor { relation: LinkRelation::Next, items_per_page: ipp, offset: offset
                    + ipp },
            );
            r.push(
                LinkDescriptor { relation: LinkRelation::Prev, items_per_page: ipp, offset: offset
                    - ipp },
            );
        } else if total <= ipp {
            r.push(
                LinkDescriptor { relation: LinkRelation::First, items_per_page: total, offset: 0 },
            );
        } else {
            proof {
                if rem == 0 {
                    assert(quo as int >= 2) by (nonlinear_arith)
                        requires
                            ipp as int >= 1,
                            total as int == ipp as int * (quo as int) + rem as int,
                            rem as int == 0,
                            total as int > ipp as int,
                            quo as int >= 0,
                    ;
                    assert(total as int - ipp as int - ipp as int >= 0) by (nonlinear_arith)
                        requires
                            quo as int >= 2,
                            ipp as int >= 1,
                            total as int == ipp as int * (quo as int),
                    ;
                } else {
                    assert(quo as int >= 1) by (nonlinear_arith)
                        requires
                            ipp as int >= 1,
                            total as int == ipp as int * (quo as int) + rem as int,
                            0 <= rem as int,
                            (rem as int) < (ipp as int),
                            total as int > ipp as int,
                            quo as int >= 0,
                    ;
                    assert((quo as int) * (ipp as int) - ipp as int >= 0) by (nonlinear_arith)
                        requires
                            quo as int >= 1,
                            ipp as int >= 1,
                    ;
                }
            }
            r.push(LinkDescriptor { relation: LinkRelation::First, items_per_page: ipp, offset: 0 });
            r.push(
                LinkDescriptor { relation: LinkRelation::Prev, items_per_page: ipp, offset:
                    last_offset - ipp },
            );
        }
    } else if offset < ipp {
        r.push(LinkDescriptor { relation: LinkRelation::Next, items_per_page: ipp, offset: ipp });
        r.push(
            LinkDescriptor { relation: LinkRelation::Last, items_per_page: ipp, offset:
                last_offset },
        );
    } else {
        r.push(LinkDescriptor { relation: LinkRelation::First, items_per_page: ipp, offset: 0 });
        r.push(
            LinkDescriptor { relation: LinkRelation::Next, items_per_page: ipp, offset: offset
                + ipp },
        );
        r.push(
            LinkDescriptor { relation: LinkRelation::Prev, items_per_page: ipp, offset: offset
                - ipp },
        );
        r.push(
            LinkDescriptor { relation: LinkRelation::Last, items_per_page: ipp, offset:
                last_offset },
        );
    }
    proof {
        assert(r@ =~= spec_link_descriptors(total as int, page as int, items_per_page as int));
    }
    r
}

/// The text of a relation name as it appears in a `Link` header entry.
pub open spec fn spec_rel_text(relation: LinkRelation) -> Seq<char> {
    match relation {
        LinkRelation::First => "first"@,
        LinkRelation::Prev => "prev"@,
        LinkRelation::Next => "next"@,
        LinkRelation::Last => "last"@,
    }
}

/// The relation name as it appears in a `Link` header entry.
pub fn rel_str(relation: LinkRelation) -> (r: &'static str)
    ensures
        r@ == spec_rel_text(relation),
{
    match relation {
        LinkRelation::First => "first",
        LinkRelation::Prev => "prev",
        LinkRelation::Next => "next",
        LinkRelation::Last => "last",
    }
}

/// The response headers of one paged request: `X-Total-Count` always, and a
/// `Link` header when at least one link descriptor was produced.
pub struct PaginationHeaders {
    pub x_total_count: String,
    pub link: Option<String>,
}

/// The `Link` header text for a sequence of descriptors under a given link
/// renderer: the rendered entries joined with ',' and no trailing separator.
pub open spec fn spec_joined_links(
    base_url: Seq<char>,
    descriptors: Seq<LinkDescriptor>,
    render: spec_fn(Seq<char>, Seq<char>, int, int) -> Seq<char>,
) -> Seq<char>
    decreases descriptors.len(),
{
    if descriptors.len() == 0 {
        Seq::<char>::empty()
    } else if descriptors.len() == 1 {
        render(
            base_url,
            spec_rel_text(descriptors[0].relation),
            descriptors[0].items_per_page as int,
            descriptors[0].offset as int,
        )
    } else {
        spec_joined_links(base_url, descriptors.drop_last(), render) + ","@ + render(
            base_url,
            spec_rel_text(descriptors.last().relation),
            descriptors.last().items_per_page as int,
            descriptors.last().offset as int,
        )
    }
}

/// A pagination strategy: how one link is rendered into a `Link` header
/// entry, plus the shared header builder over the boundary algorithm.
pub trait PaginationTrait {
    /// The text that `header` renders for these inputs.
    spec fn spec_header(
        base_url: Seq<char>,
        rel: Seq<char>,
        items_per_page: int,
        offset: int,
    ) -> Seq<char>;


    /// Renders one `<url>; rel="relation"` entry of the `Link` header.
    fn header(base_url: &str, rel: &str, items_per_page: i32, offset: i32) -> (r: String)
        requires
            items_per_page >= 1,
        ensures
            r@ == Self::spec_header(base_url@, rel@, items_per_page as int, offset as int),
    ;

    /// Builds the response headers for one page: `X-Total-Count` carries
    /// `total` in decimal, and `Link` joins the rendered boundary links.
    fn pagination_header(total: i32, page: i32, items_per_page: i32, base_url: &str) -> (h:
        PaginationHeaders)
        requires
            total >= 0,
            page >= 0,
            (page as int + 1) * spec_ipp_floor(items_per_page as int) <= i32::MAX as int,
        ensures
            h.x_total_count@ == dec_int(total as int),
            h.link is Some <==> spec_link_descriptors(
                total as int,
                page as int,
                items_per_page as int,
            ).len() > 0,
            h.link matches Some(l) ==> l@ == spec_joined_links(
                base_url@,
                spec_link_descriptors(total as int, page as int, items_per_page as int),
                (|b: Seq<char>, rel: Seq<char>, ipp: int, off: int|
                    Self::spec_header(b, rel, ipp, off)),
            ),
    {
        let ghost render = (|b: Seq<char>, rel: Seq<char>, ipp: int, off: int|
            Self::spec_header(b, rel, ipp, off));
        let descriptors = link_descriptors(total, page, items_per_page);
        let total_text = i32_to_dec(total);
        let n = descriptors.len();
        if n == 0 {
            PaginationHeaders { x_total_count: total_text, link: None }
        } else {
            let mut text = String::new();
            let mut i: usize = 0;
            while i < n
                invariant
                    0 <= i <= n,
                    n == descriptors@.len(),
                    forall|j: int|
                        0 <= j < descriptors@.len() ==> 1 <= (
                        #[trigger] descriptors@[j]).items_per_page,
                    render == (|b: Seq<char>, rel: Seq<char>, ipp: int, off: int|
                        Self::spec_header(b, rel, ipp, off)),
                    text@ == spec_joined_links(base_url@, descriptors@.subrange(0, i as int), render),
                decreases n - i,
            {
                let d = descriptors[i];
                let rendered = Self::header(base_url, rel_str(d.relation), d.items_per_page,
                    d.offset);
                let ghost pre = descriptors@.subrange(0, i as int);
                let ghost pre1 = descriptors@.subrange(0, i as int + 1);
                proof {
                    assert(pre1.drop_last() =~= pre);
                    assert(pre1.last() == descriptors@[i as int]);
                }
                proof {
                    let dd = descriptors@[i as int];
                    assert(rendered@ == render(
                        base_url@,
                        spec_rel_text(dd.relation),
                        dd.items_per_page as int,
                        dd.offset as int,
                    ));
                }
                if i == 0 {
                    text.append(rendered.as_str());
                    proof {
                        assert(pre1.len() == 1);
                        assert(text@ =~= spec_joined_links(base_url@, pre1, render));
                    }
                } else {
                    text.append(",");
                    text.append(rendered.as_str());
                    proof {
                        reveal_strlit(",");
                        assert(pre1.len() >= 2);
                        assert(spec_joined_links(base_url@, pre1, render) == spec_joined_links(
                            base_url@,
                            pre,
                            render,
                        ) + ","@ + render(
                            base_url@,
                            spec_rel_text(pre1.last().relation),
                            pre1.last().items_per_page as int,
                            pre1.last().offset as int,
                        ));
                        assert(text@ =~= spec_joined_links(base_url@, pre1, render));
                    }
                }
                i += 1;
            }
            proof {
                assert(descriptors@.subrange(0, n as int) =~= descriptors@);
            }
            PaginationHeaders { x_total_count: total_text, link: Some(text) }
        }
    }
}

} // verus!
