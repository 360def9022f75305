use vstd::prelude::*;

use crate::urls::{build_url, resolve_spec, scheme_of, text_eq};

verus! {

/// The mathematical view of one discovered hyperlink.
pub struct LinkView {
    pub origin: Seq<char>,
    pub href: Seq<char>,
    pub resolved: Option<Seq<char>>,
}

/// One discovered hyperlink: the page it stood on, the raw href as written
/// in the source markup, and the absolute address the href resolved to
/// (absent when the href was unresolvable or of a non-HTTP scheme).
#[derive(Debug)]
pub struct Link {
    pub origin: String,
    pub href: String,
    pub resolved: Option<String>,
}

impl View for Link {
    type V = LinkView;

    open spec fn view(&self) -> LinkView {
        LinkView {
            origin: self.origin@,
            href: self.href@,
            resolved: match self.resolved {
                Some(s) => Some(s@),
                None => None,
            },
        }
    }
}

impl Clone for Link {
    fn clone(&self) -> (r: Self)
        ensures
            r == *self,
    {
        Link {
            origin: self.origin.clone(),
            href: self.href.clone(),
            resolved: match &self.resolved {
                Some(s) => Some(s.clone()),
                None => None,
            },
        }
    }
}

/// The record that one anchor href on `page` contributes: the href resolved
/// against the crawl domain, kept when it resolves to an http or https
/// address and dropped otherwise.
pub open spec fn link_of(domain: Seq<char>, page: Seq<char>, href: Seq<char>) -> Option<LinkView> {
    match resolve_spec(domain, href) {
        Some(t) => if scheme_of(t) == "http"@ || scheme_of(t) == "https"@ {
            Some(LinkView { origin: page, href: href, resolved: Some(t) })
        } else {
            None
        },
        None => None,
    }
}

/// The records that the anchor hrefs of `page` contribute, in order.
pub open spec fn links_of(domain: Seq<char>, page: Seq<char>, hrefs: Seq<Seq<char>>) -> Seq<
    LinkView,
>
    decreases hrefs.len(),
{
    if hrefs.len() == 0 {
        Seq::empty()
    } else {
        links_of(domain, page, hrefs.drop_last()) + (match link_of(domain, page, hrefs.last()) {
            Some(l) => seq![l],
            None => Seq::empty(),
        })
    }
}

/// Builds the link records for the anchor hrefs found on `page`: each href
/// is resolved against `domain`, and only hrefs that resolve to an http or
/// https address yield a record.
pub fn get_links(hrefs: &Vec<String>, domain: &str, page: &str) -> (r: Vec<Link>)
    ensures
        r@.map_values(|l: Link| l@) == links_of(domain@, page@, hrefs.deep_view()),
{
    let mut out: Vec<Link> = Vec::new();
    let mut i: usize = 0;
    while i < hrefs.len()
        invariant
            i <= hrefs.len(),
            out@.map_values(|l: Link| l@) == links_of(
                domain@,
                page@,
                hrefs.deep_view().take(i as int),
            ),
        decreases hrefs.len() - i,
    {
        let href = &hrefs[i];
        let ghost prefix = hrefs.deep_view().take(i as int);
        match build_url(domain, href.as_str()) {
            Some(parts) => {
                let is_http = text_eq(parts.scheme.as_str(), "http") || text_eq(
                    parts.scheme.as_str(),
                    "https",
                );
                if is_http {
                    let record = Link {
                        origin: page.to_string(),
                        href: href.clone(),
                        resolved: Some(parts.text),
                    };
                    proof {
                        assert(record@ == link_of(domain@, page@, href@)->0);
                    }
                    out.push(record);
                }
            },
            None => {},
        }
        i = i + 1;
        proof {
            assert(hrefs.deep_view().take(i as int).drop_last() =~= prefix);
            assert(hrefs.deep_view().take(i as int).last() == href@);
            assert(out@.map_values(|l: Link| l@) =~= links_of(
                domain@,
                page@,
                hrefs.deep_view().take(i as int),
            ));
        }
    }
    proof {
        assert(hrefs.deep_view().take(hrefs.deep_view().len() as int) =~= hrefs.deep_view());
    }
    out
}

} // verus!
