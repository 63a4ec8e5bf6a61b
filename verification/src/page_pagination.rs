//! The offset/page strategy: `page` and `per_page` query parameters, and
//! `Link` URLs that carry `per_page=` and `page=`.

use crate::digits::{dec_int, i32_to_dec};
use crate::links::PaginationTrait;
use crate::normalize::{
    page_or_default, page_size_or_default, spec_page_size_value, spec_page_value,
};
use vstd::arithmetic::div_mod::{lemma_div_pos_is_pos, lemma_fundamental_div_mod};
use vstd::prelude::*;
use vstd::string::StringExecFns;

verus! {

/// Truncating division, as the `/` operator of the machine integers does it.
pub open spec fn div_trunc(a: int, b: int) -> int {
    if a >= 0 {
        a / b
    } else {
        -((-a) / b)
    }
}

/// The validated `page` and `per_page` parameters of one request.
pub struct PagePaginationParams {
    pub page: i32,
    pub per_page: i32,
}

/// The `page` value used when the query does not carry one.
pub fn default_page() -> (r: i32)
    ensures
        r == 0,
{
    0
}

/// The `per_page` value used when the query does not carry one.
pub fn default_per_page() -> (r: i32)
    ensures
        r == 250,
{
    250
}

impl PagePaginationParams {
    /// Normalizes the raw `page` and `per_page` query values; never fails.
    pub fn from_raw(page: Option<&str>, per_page: Option<&str>) -> (r: Self)
        ensures
            r.page as int == spec_page_value(page.deep_view()),
            r.per_page as int == spec_page_size_value(per_page.deep_view()),
    {
        PagePaginationParams {
            page: page_or_default(page),
            per_page: page_size_or_default(per_page),
        }
    }
}

/// The offset/page pagination strategy.
pub struct PagePagination;

impl PaginationTrait for PagePagination {
    open spec fn spec_header(
        base_url: Seq<char>,
        rel: Seq<char>,
        items_per_page: int,
        offset: int,
    ) -> Seq<char> {
        "<"@ + base_url + "?per_page="@ + dec_int(items_per_page) + "&page="@ + dec_int(
            div_trunc(offset, items_per_page),
        ) + ">; rel=\""@ + rel + "\""@
    }

    fn header(base_url: &str, rel: &str, items_per_page: i32, offset: i32) -> (r: String) {
        let q: i32 = if offset >= 0 {
            proof {
                let qi = (offset as int) / (items_per_page as int);
                lemma_fundamental_div_mod(offset as int, items_per_page as int);
                lemma_div_pos_is_pos(offset as int, items_per_page as int);
                assert(qi <= (items_per_page as int) * qi) by (nonlinear_arith)
                    requires
                        qi >= 0,
                        items_per_page as int >= 1,
                ;
            }
            ((offset as u32) / (items_per_page as u32)) as i32
        } else {
            let mag: u64 = (-(offset as i64)) as u64;
            let qq: u64 = mag / (items_per_page as u64);
            proof {
                lemma_fundamental_div_mod(mag as int, items_per_page as int);
                lemma_div_pos_is_pos(mag as int, items_per_page as int);
                assert(qq as int <= (items_per_page as int) * (qq as int)) by (nonlinear_arith)
                    requires
                        qq as int >= 0,
                        items_per_page as int >= 1,
                ;
            }
            (-(qq as i64)) as i32
        };
        proof {
            assert(q as int == div_trunc(offset as int, items_per_page as int));
        }
        let mut s = String::from_str("<");
        s.append(base_url);
        s.append("?per_page=");
        let per_page_text = i32_to_dec(items_per_page);
        s.append(per_page_text.as_str());
        s.append("&page=");
        let page_text = i32_to_dec(q);
        s.append(page_text.as_str());
        s.append(">; rel=\"");
        s.append(rel);
        s.append("\"");
        proof {
            reveal_strlit("<");
            reveal_strlit("?per_page=");
            reveal_strlit("&page=");
            reveal_strlit(">; rel=\"");
            reveal_strlit("\"");
            assert(s@ =~= Self::spec_header(
                base_url@,
                rel@,
                items_per_page as int,
                offset as int,
            ));
        }
        s
    }
}

} // verus!
