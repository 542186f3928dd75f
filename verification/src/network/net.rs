//! What the page requests are made of.
use vstd::prelude::*;

use crate::models::types::{DataType, ScrapeError};
use crate::pattern::{pattern_compiles, pattern_group};
use crate::utility::utils::{
    base_domain, base_domain_defined, generate_nozomi_link_from_id, get_base_domain,
    get_nozomi_id_from_link, nozomi_id_result, nozomi_link, nozomi_post_pattern,
};

verus! {

/// The request for the JSON record of a nozomi post: where to send it and
/// the site to name as its referer and origin.
#[derive(Debug)]
pub struct NozomiRequest {
    pub referer: String,
    pub url: String,
}

/// The request for the JSON record of the nozomi post that `base_link` shows:
/// the record link of its post id, with the site of the link as referer.
/// It fails as [`get_nozomi_id_from_link`] does.
pub fn nozomi_request(base_link: &str) -> (r: Result<NozomiRequest, ScrapeError>)
    requires
        base_domain_defined(base_link@),
    ensures
        match nozomi_id_result(
            pattern_compiles(nozomi_post_pattern()),
            pattern_group(nozomi_post_pattern(), base_link@, 1),
        ) {
            Ok(id) => r matches Ok(q) && q.referer@ == base_domain(base_link@) && q.url@
                == nozomi_link(id, DataType::Json),
            Err(e) => r matches Err(e2) && e2 == e,
        },
{
    let referer = get_base_domain(base_link);
    let request_id = match get_nozomi_id_from_link(base_link) {
        Ok(id) => id,
        Err(e) => return Err(e),
    };
    match generate_nozomi_link_from_id(request_id.as_str(), DataType::Json) {
        Ok(url) => Ok(NozomiRequest { referer, url }),
        Err(e) => Err(e),
    }
}

} // verus!
