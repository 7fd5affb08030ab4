//! The asset stager: composes each rendered HTML body into a self-contained
//! page (stylesheet, scroll-restore script, scroll side-channel script) and
//! hands out a fresh file path for it inside one private staging directory.
//!
//! Every call yields a path never handed out before, so a page being loaded
//! by the display surface is never overwritten by a later render; the
//! directory as a whole is removed at shutdown by the caller that created it.

use crate::scroll::{dec_seq, is_digit, lemma_dec_seq_digits, lemma_dec_value_of_dec_seq, push_dec};
use vstd::prelude::*;

verus! {

/// Everything of the staged page before the scroll offset numeral: document
/// head, stylesheet, and the opening of the scroll-restore script.
pub open spec fn page_pre() -> Seq<char> {
    "<!DOCTYPE html>\n<html>\n<head>\n<meta charset=utf-8>\n<style>\nbody { font-family: sans-serif; margin: 40px auto; max-width: 50em; line-height: 1.6; padding: 0 10px; }\ncode, pre { background: #f4f4f4; }\n</style>\n<script>\nwindow.addEventListener('load', function() { window.scrollTo(0, "@
}

/// Everything between the scroll offset numeral and the HTML body: the rest
/// of the scroll-restore script, and the script that keeps reporting the
/// current offset through the page-title side channel.
pub open spec fn page_mid() -> Seq<char> {
    "); });\nwindow.addEventListener('scroll', function() { document.title = window.pageYOffset; });\n</script>\n</head>\n<body>\n"@
}

/// Everything after the HTML body.
pub open spec fn page_post() -> Seq<char> {
    "</body>\n</html>\n"@
}

/// The complete standalone page for a rendered body and a scroll offset.
pub open spec fn spec_page(html: Seq<char>, scroll_top: nat) -> Seq<char> {
    page_pre() + dec_seq(scroll_top) + page_mid() + html + page_post()
}

/// The path of staged page number `n` inside staging directory `dir`.
pub open spec fn spec_page_path(dir: Seq<char>, n: nat) -> Seq<char> {
    dir + "/page-"@ + dec_seq(n) + ".html"@
}

/// The stager: the staging directory's path and the number of pages staged
/// so far, which makes the next file name fresh.
pub struct Assets {
    pub dir: String,
    pub counter: u64,
}

impl Assets {
    /// A stager over the given private staging directory, which the caller
    /// has created and later removes.
    pub fn init(dir: String) -> (a: Assets)
        ensures
            a.dir == dir,
            a.counter == 0,
    {
        Assets { dir, counter: 0 }
    }

    /// Composes the standalone page for `html` at scroll offset `scroll_top`
    /// and picks the fresh file path to write it to: the path of build
    /// number `counter`, never handed out by an earlier call.
    pub fn build(&mut self, html: &str, scroll_top: u64) -> (r: (String, String))
        requires
            old(self).counter < u64::MAX,
        ensures
            final(self).dir == old(self).dir,
            final(self).counter == old(self).counter + 1,
            r.0@ == spec_page_path(old(self).dir@, old(self).counter as nat),
            r.1@ == spec_page(html@, scroll_top as nat),
    {
        let mut path = String::new();
        path.append(self.dir.as_str());
        path.append("/page-");
        push_dec(&mut path, self.counter);
        path.append(".html");
        proof {
            assert(path@ =~= spec_page_path(self.dir@, self.counter as nat));
        }
        let mut doc = String::new();
        doc.append(
            "<!DOCTYPE html>\n<html>\n<head>\n<meta charset=utf-8>\n<style>\nbody { font-family: sans-serif; margin: 40px auto; max-width: 50em; line-height: 1.6; padding: 0 10px; }\ncode, pre { background: #f4f4f4; }\n</style>\n<script>\nwindow.addEventListener('load', function() { window.scrollTo(0, ",
        );
        push_dec(&mut doc, scroll_top);
        doc.append(
            "); });\nwindow.addEventListener('scroll', function() { document.title = window.pageYOffset; });\n</script>\n</head>\n<body>\n",
        );
        doc.append(html);
        doc.append("</body>\n</html>\n");
        proof {
            assert(doc@ =~= spec_page(html@, scroll_top as nat));
        }
        self.counter = self.counter + 1;
        (path, doc)
    }
}

proof fn lemma_dec_seq_injective(a: nat, b: nat)
    requires
        a != b,
    ensures
        dec_seq(a) != dec_seq(b),
{
    lemma_dec_value_of_dec_seq(a);
    lemma_dec_value_of_dec_seq(b);
}

/// Law: staged pages never collide. Two different build numbers give two
/// different file paths under the same staging directory, so a later build
/// can never overwrite a page the display surface may still be reading.
pub proof fn lemma_paths_distinct(dir: Seq<char>, a: nat, b: nat)
    requires
        a != b,
    ensures
        spec_page_path(dir, a) != spec_page_path(dir, b),
{
    let p = dir + "/page-"@;
    let u = dec_seq(a);
    let v = dec_seq(b);
    let s = ".html"@;
    let pa = spec_page_path(dir, a);
    let pb = spec_page_path(dir, b);
    assert(pa == p + u + s);
    assert(pb == p + v + s);
    lemma_dec_seq_injective(a, b);
    lemma_dec_seq_digits(a);
    lemma_dec_seq_digits(b);
    reveal_strlit(".html");
    assert(s.len() == 5);
    if u.len() == v.len() {
        if pa == pb {
            assert forall|i: int| 0 <= i < u.len() implies u[i] == v[i] by {
                assert(pa[p.len() + i] == u[i]);
                assert(pb[p.len() + i] == v[i]);
            }
            assert(u =~= v);
            assert(false);
        }
    } else if u.len() < v.len() {
        if pa == pb {
            let idx = p.len() + u.len();
            assert(pa[idx as int] == s[0]);
            assert(s[0] == '.');
            assert(pb[idx as int] == v[u.len() as int]);
            assert(is_digit(v[u.len() as int]));
            assert(false);
        }
    } else {
        if pa == pb {
            let idx = p.len() + v.len();
            assert(pb[idx as int] == s[0]);
            assert(s[0] == '.');
            assert(pa[idx as int] == u[v.len() as int]);
            assert(is_digit(u[v.len() as int]));
            assert(false);
        }
    }
}

} // verus!
