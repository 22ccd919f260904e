//! One hit of the wiki search backend: a page title, its page id, and a
//! snippet of matching text whose highlight markup is stripped before
//! display.

use vstd::prelude::*;

use crate::text::{string_from_chars, strip_tag, strip_tag_exec, to_chars};

verus! {

/// One wiki search hit.
#[derive(Debug)]
pub struct WikiItem {
    pub title: String,
    pub pageid: usize,
    pub snippet: String,
}

impl WikiItem {
    /// The snippet as displayed: framed in ellipses, with the search-match
    /// highlight markup stripped out.
    pub fn snippet(&self) -> (r: String)
        ensures
            r@ == strip_tag(
                strip_tag(
                    "..."@ + self.snippet@ + "..."@,
                    ("<span class=\"searchmatch\">")@,
                ),
                ("</span>")@,
            ),
    {
        let dots = to_chars("...");
        let body = to_chars(self.snippet.as_str());
        let mut framed = crate::index::engine::copy_vals(&dots);
        let mut body_m = body;
        framed.append(&mut body_m);
        let mut dots_m = crate::index::engine::copy_vals(&dots);
        framed.append(&mut dots_m);
        proof {
            assert(framed@ =~= "..."@ + self.snippet@ + "..."@);
        }
        let open_tag = to_chars("<span class=\"searchmatch\">");
        let close_tag = to_chars("</span>");
        let pass1 = strip_tag_exec(&framed, &open_tag);
        let pass2 = strip_tag_exec(&pass1, &close_tag);
        string_from_chars(&pass2)
    }
}

} // verus!
