//! `<a href>` click default: unless cancelled, a click inside an anchor
//! with an `href` hands that `href` to the URL opener when its scheme
//! is an external one (http, https, mailto, tel, sms, ftp, file, data,
//! blob). Relative links, fragments and custom schemes (`tui:`, `app:`,
//! `javascript:` …) are left to the application's own routing.

use vstd::prelude::*;
use crate::dom::{Node, NodeId, NodeType};
use crate::path::{ancestor, find_path, first_path, lemma_path_ok_prefix, node_at, path_ok, prefix};
use crate::text::{ascii_lower_seq, eq_ignore_ascii_case};

verus! {

/// An `<a>` element with an `href`.
pub open spec fn is_link(n: Node) -> bool {
    n.is_element("a"@) && n.has_attr("href"@)
}

/// Walking up the path `p` from `root` through the nodes at depths
/// `n - 1`, ..., `0`: the first link.
pub open spec fn up_link(root: Node, p: Seq<usize>, n: int) -> Option<NodeId>
    decreases n,
{
    if n <= 0 {
        None
    } else if is_link(ancestor(root, p, n - 1)) {
        Some(ancestor(root, p, n - 1).id)
    } else {
        up_link(root, p, n - 1)
    }
}

/// The nearest link ancestor-or-self of the node `target`.
pub open spec fn anchor_spec(root: Node, target: NodeId) -> Option<NodeId> {
    match first_path(root, target) {
        Some(p) => up_link(root, p, p.len() as int + 1),
        None => None,
    }
}

fn walk_up_link(root: &Node, path: &Vec<usize>, n: usize) -> (r: Option<NodeId>)
    requires
        path_ok(*root, path@),
        n <= path@.len(),
    ensures
        r == up_link(*root, path@, n as int),
{
    let mut k: usize = n;
    while k > 0
        invariant
            k <= n <= path@.len(),
            path_ok(*root, path@),
            up_link(*root, path@, n as int) == up_link(*root, path@, k as int),
        decreases k,
    {
        let pre = prefix(path, k - 1);
        proof {
            lemma_path_ok_prefix(*root, path@, k - 1);
        }
        let a = node_at(root, &pre);
        if a.has_tag("a") && a.has_attribute("href") {
            return Some(a.id);
        }
        k = k - 1;
    }
    None
}

/// The nearest `<a href>` ancestor-or-self of the node `target`.
pub fn anchor_with_href(root: &Node, target: NodeId) -> (r: Option<NodeId>)
    ensures
        r == anchor_spec(*root, target),
{
    let p = match find_path(root, target) {
        Some(p) => p,
        None => return None,
    };
    let here = node_at(root, &p);
    assert(p@.take(p@.len() as int) =~= p@);
    if here.has_tag("a") && here.has_attribute("href") {
        return Some(here.id);
    }
    walk_up_link(root, &p, p.len())
}

/// The index of the first `:` of `s`.
pub open spec fn colon_index(s: Seq<char>) -> Option<int>
    decreases s.len(),
{
    if s.len() == 0 {
        None
    } else if s[0] == ':' {
        Some(0)
    } else {
        match colon_index(s.drop_first()) {
            Some(k) => Some(k + 1),
            None => None,
        }
    }
}

/// The scheme of `href`: what precedes its first `:`, or nothing.
pub open spec fn scheme_spec(href: Seq<char>) -> Seq<char> {
    match colon_index(href) {
        Some(k) => href.take(k),
        None => Seq::empty(),
    }
}

proof fn lemma_colon_index(s: Seq<char>)
    ensures
        match colon_index(s) {
            Some(k) => 0 <= k < s.len() && s[k] == ':' && forall|j: int| 0 <= j < k ==> s[j] != ':',
            None => forall|j: int| 0 <= j < s.len() ==> s[j] != ':',
        },
    decreases s.len(),
{
    if s.len() > 0 {
        lemma_colon_index(s.drop_first());
        assert forall|j: int| 1 <= j < s.len() implies s[j] == s.drop_first()[j - 1] by {}
    }
}

/// The scheme of `href`.
pub fn scheme_of(href: &str) -> (r: String)
    ensures
        r@ == scheme_spec(href@),
{
    proof {
        lemma_colon_index(href@);
    }
    let cs = crate::text::chars_of(href);
    let mut out = String::new();
    let mut i: usize = 0;
    while i < cs.len()
        invariant
            cs@ == href@,
            i <= cs@.len(),
            out@ == cs@.take(i as int),
            forall|j: int| 0 <= j < i ==> cs@[j] != ':',
            match colon_index(cs@) {
                Some(k) => i <= k && 0 <= k < cs@.len() && cs@[k] == ':' && forall|j: int| 0 <= j < k ==> cs@[j] != ':',
                None => forall|j: int| 0 <= j < cs@.len() ==> cs@[j] != ':',
            },
        decreases cs.len() - i,
    {
        if cs[i] == ':' {
            return out;
        }
        crate::text::push_char(&mut out, cs[i]);
        assert(cs@.take(i + 1) =~= cs@.take(i as int).push(cs@[i as int]));
        i = i + 1;
    }
    String::new()
}

/// The schemes the opener handles: http, https, mailto, tel, sms, ftp,
/// file, data and blob, in any ASCII case.
pub open spec fn is_external_spec(scheme: Seq<char>) -> bool {
    let s = ascii_lower_seq(scheme);
    s == "http"@ || s == "https"@ || s == "mailto"@ || s == "tel"@ || s == "sms"@ || s == "ftp"@ || s == "file"@
        || s == "data"@ || s == "blob"@
}

/// Whether the opener handles `scheme`.
pub fn is_external_scheme(scheme: &str) -> (r: bool)
    ensures
        r == is_external_spec(scheme@),
{
    proof {
        reveal_strlit("http");
        lemma_lower_fixed("http"@);
        reveal_strlit("https");
        lemma_lower_fixed("https"@);
        reveal_strlit("mailto");
        lemma_lower_fixed("mailto"@);
        reveal_strlit("tel");
        lemma_lower_fixed("tel"@);
        reveal_strlit("sms");
        lemma_lower_fixed("sms"@);
        reveal_strlit("ftp");
        lemma_lower_fixed("ftp"@);
        reveal_strlit("file");
        lemma_lower_fixed("file"@);
        reveal_strlit("data");
        lemma_lower_fixed("data"@);
        reveal_strlit("blob");
        lemma_lower_fixed("blob"@);
    }
    eq_ignore_ascii_case(scheme, "http") || eq_ignore_ascii_case(scheme, "https") || eq_ignore_ascii_case(scheme, "mailto")
        || eq_ignore_ascii_case(scheme, "tel") || eq_ignore_ascii_case(scheme, "sms") || eq_ignore_ascii_case(
        scheme,
        "ftp",
    ) || eq_ignore_ascii_case(scheme, "file") || eq_ignore_ascii_case(scheme, "data") || eq_ignore_ascii_case(
        scheme,
        "blob",
    )
}

proof fn lemma_lower_fixed(s: Seq<char>)
    requires
        forall|i: int| 0 <= i < s.len() ==> 'a' <= #[trigger] s[i] <= 'z',
    ensures
        ascii_lower_seq(s) == s,
{
    assert(ascii_lower_seq(s) =~= s);
}

/// The `href` a click on the node `target` asks the opener to open.
pub open spec fn link_to_open_spec(root: Node, target: NodeId, default_prevented: bool) -> Option<Seq<char>> {
    if default_prevented {
        None
    } else {
        match anchor_spec(root, target) {
            Some(a) => match crate::path::node_of(root, a) {
                Some(an) => match an.attr("href"@) {
                    Some(h) => if is_external_spec(scheme_spec(h)) {
                        Some(h)
                    } else {
                        None
                    },
                    None => None,
                },
                None => None,
            },
            None => None,
        }
    }
}

/// The anchor click default: the `href` to hand the URL opener, if any.
pub fn link_to_open(root: &Node, target: NodeId, default_prevented: bool) -> (r: Option<String>)
    ensures
        match r {
            Some(h) => link_to_open_spec(*root, target, default_prevented) == Some(h@),
            None => link_to_open_spec(*root, target, default_prevented) is None,
        },
{
    if default_prevented {
        return None;
    }
    let a = match anchor_with_href(root, target) {
        Some(a) => a,
        None => return None,
    };
    let an = match crate::path::node_by_id(root, a) {
        Some(an) => an,
        None => return None,
    };
    let h = match an.get_attribute("href") {
        Some(h) => h,
        None => return None,
    };
    let scheme = scheme_of(h.as_str());
    if is_external_scheme(scheme.as_str()) {
        Some(h.clone())
    } else {
        None
    }
}

} // verus!
