//! The markdown renderer: a pure, total function from markdown text to HTML.
//!
//! Any input text is accepted. Each line becomes one block: a line opening
//! with one to six `#` characters followed by a space becomes a heading, any
//! other non-empty line becomes a paragraph, and empty lines separate blocks.
//! Text inside a block is HTML-escaped, so unrecognized markdown constructs
//! pass through as literal text rather than causing a failure.

use vstd::prelude::*;

verus! {

/// What one character contributes to HTML-escaped text: the three characters
/// with markup meaning become entities, all others pass through unchanged.
pub open spec fn esc_char(c: char) -> Seq<char> {
    if c == '&' {
        "&amp;"@
    } else if c == '<' {
        "&lt;"@
    } else if c == '>' {
        "&gt;"@
    } else {
        seq![c]
    }
}

/// HTML-escaping of a whole character sequence.
pub open spec fn escape(s: Seq<char>) -> Seq<char>
    decreases s.len(),
{
    if s.len() == 0 {
        Seq::empty()
    } else {
        esc_char(s[0]) + escape(s.skip(1))
    }
}

proof fn lemma_escape_concat(a: Seq<char>, b: Seq<char>)
    ensures
        escape(a + b) == escape(a) + escape(b),
    decreases a.len(),
{
    if a.len() == 0 {
        assert(a + b =~= b);
        assert(escape(a) + escape(b) =~= escape(b));
    } else {
        assert((a + b).skip(1) =~= a.skip(1) + b);
        lemma_escape_concat(a.skip(1), b);
        assert((a + b)[0] == a[0]);
        assert(escape(a + b) =~= escape(a) + escape(b));
    }
}

proof fn lemma_escape_one(c: char)
    ensures
        escape(seq![c]) == esc_char(c),
{
    let s = seq![c];
    assert(s.skip(1) =~= Seq::<char>::empty());
    assert(escape(s) == esc_char(s[0]) + escape(Seq::<char>::empty()));
    assert(s[0] == c);
    assert(esc_char(c) + Seq::<char>::empty() =~= esc_char(c));
}

/// The number of `#` characters the line opens with.
pub open spec fn leading_hashes(s: Seq<char>) -> nat
    decreases s.len(),
{
    if s.len() == 0 || s[0] != '#' {
        0
    } else {
        1 + leading_hashes(s.skip(1))
    }
}

proof fn lemma_leading_hashes_is(s: Seq<char>, h: nat)
    requires
        h <= s.len(),
        forall|k: int| 0 <= k < h ==> s[k] == '#',
        h == s.len() || s[h as int] != '#',
    ensures
        leading_hashes(s) == h,
    decreases h,
{
    if h == 0 {
    } else {
        assert(s[0] == '#');
        assert forall|k: int| 0 <= k < h - 1 implies s.skip(1)[k] == '#' by {
            assert(s.skip(1)[k] == s[k + 1]);
        }
        lemma_leading_hashes_is(s.skip(1), (h - 1) as nat);
    }
}

/// A heading line: one to six `#` characters, then a space, then the title.
pub open spec fn is_heading(l: Seq<char>) -> bool {
    &&& 1 <= leading_hashes(l) <= 6
    &&& leading_hashes(l) < l.len()
    &&& l[leading_hashes(l) as int] == ' '
}

pub open spec fn open_tag(k: nat) -> Seq<char> {
    if k == 1 {
        "<h1>"@
    } else if k == 2 {
        "<h2>"@
    } else if k == 3 {
        "<h3>"@
    } else if k == 4 {
        "<h4>"@
    } else if k == 5 {
        "<h5>"@
    } else {
        "<h6>"@
    }
}

pub open spec fn close_tag(k: nat) -> Seq<char> {
    if k == 1 {
        "</h1>\n"@
    } else if k == 2 {
        "</h2>\n"@
    } else if k == 3 {
        "</h3>\n"@
    } else if k == 4 {
        "</h4>\n"@
    } else if k == 5 {
        "</h5>\n"@
    } else {
        "</h6>\n"@
    }
}

/// The HTML block one source line turns into.
pub open spec fn line_html(l: Seq<char>) -> Seq<char> {
    if l.len() == 0 {
        Seq::empty()
    } else if is_heading(l) {
        open_tag(leading_hashes(l)) + escape(l.skip(leading_hashes(l) as int + 1))
            + close_tag(leading_hashes(l))
    } else {
        "<p>"@ + escape(l) + "</p>\n"@
    }
}

/// The index of the first newline in `s`, or `s.len()` if there is none.
pub open spec fn line_end(s: Seq<char>) -> nat
    decreases s.len(),
{
    if s.len() == 0 {
        0
    } else if s[0] == '\n' {
        0
    } else {
        1 + line_end(s.skip(1))
    }
}

proof fn lemma_line_end_is(s: Seq<char>, j: nat)
    requires
        j <= s.len(),
        forall|k: int| 0 <= k < j ==> s[k] != '\n',
        j == s.len() || s[j as int] == '\n',
    ensures
        line_end(s) == j,
    decreases j,
{
    if j == 0 {
    } else {
        assert(s[0] != '\n');
        assert forall|k: int| 0 <= k < j - 1 implies s.skip(1)[k] != '\n' by {
            assert(s.skip(1)[k] == s[k + 1]);
        }
        lemma_line_end_is(s.skip(1), (j - 1) as nat);
    }
}

/// The rendering of a whole markdown document: the concatenation of the HTML
/// blocks of its newline-separated lines.
pub open spec fn spec_render(md: Seq<char>) -> Seq<char>
    decreases md.len(),
{
    if md.len() == 0 {
        Seq::empty()
    } else {
        let k = line_end(md);
        if k >= md.len() {
            line_html(md)
        } else {
            line_html(md.take(k as int)) + spec_render(md.skip(k as int + 1))
        }
    }
}

/// Relies on String::push: appends the given character to the end of the string.
#[verifier::external_body]
pub(crate) fn push_char(out: &mut String, c: char)
    ensures
        final(out)@ == old(out)@ + seq![c],
{
    out.push(c);
}

/// Appends the HTML-escaping of `s@.subrange(from, to)` to `out`.
fn append_escaped(out: &mut String, s: &str, from: usize, to: usize)
    requires
        from <= to <= s@.len(),
    ensures
        final(out)@ == old(out)@ + escape(s@.subrange(from as int, to as int)),
{
    let mut i: usize = from;
    proof {
        assert(s@.subrange(from as int, from as int) =~= Seq::<char>::empty());
        assert(out@ + Seq::<char>::empty() =~= out@);
    }
    while i < to
        invariant
            from <= i <= to <= s@.len(),
            out@ == old(out)@ + escape(s@.subrange(from as int, i as int)),
        decreases to - i,
    {
        let c = s.get_char(i);
        proof {
            assert(s@.subrange(from as int, i as int + 1) =~= s@.subrange(
                from as int,
                i as int,
            ) + seq![c]);
            lemma_escape_concat(s@.subrange(from as int, i as int), seq![c]);
            lemma_escape_one(c);
        }
        if c == '&' {
            out.append("&amp;");
        } else if c == '<' {
            out.append("&lt;");
        } else if c == '>' {
            out.append("&gt;");
        } else {
            push_char(out, c);
        }
        i = i + 1;
    }
}

fn open_tag_str(k: usize) -> (r: &'static str)
    requires
        1 <= k <= 6,
    ensures
        r@ == open_tag(k as nat),
{
    if k == 1 {
        "<h1>"
    } else if k == 2 {
        "<h2>"
    } else if k == 3 {
        "<h3>"
    } else if k == 4 {
        "<h4>"
    } else if k == 5 {
        "<h5>"
    } else {
        "<h6>"
    }
}

fn close_tag_str(k: usize) -> (r: &'static str)
    requires
        1 <= k <= 6,
    ensures
        r@ == close_tag(k as nat),
{
    if k == 1 {
        "</h1>\n"
    } else if k == 2 {
        "</h2>\n"
    } else if k == 3 {
        "</h3>\n"
    } else if k == 4 {
        "</h4>\n"
    } else if k == 5 {
        "</h5>\n"
    } else {
        "</h6>\n"
    }
}

/// Appends the HTML block of one source line to `out`.
fn append_line_html(out: &mut String, line: &str)
    ensures
        final(out)@ == old(out)@ + line_html(line@),
{
    let m = line.unicode_len();
    if m == 0 {
        return ;
    }
    let mut h: usize = 0;
    while h < m && line.get_char(h) == '#'
        invariant
            h <= m,
            m == line@.len(),
            forall|k: int| 0 <= k < h ==> line@[k] == '#',
        decreases m - h,
    {
        h = h + 1;
    }
    proof {
        lemma_leading_hashes_is(line@, h as nat);
    }
    if h >= 1 && h <= 6 && h < m && line.get_char(h) == ' ' {
        assert(is_heading(line@));
        out.append(open_tag_str(h));
        proof {
            assert(line@.subrange(h as int + 1, m as int) =~= line@.skip(h as int + 1));
        }
        append_escaped(out, line, h + 1, m);
        out.append(close_tag_str(h));
    } else {
        assert(!is_heading(line@));
        out.append("<p>");
        proof {
            assert(line@.subrange(0, m as int) =~= line@);
        }
        append_escaped(out, line, 0, m);
        out.append("</p>\n");
    }
}

/// Renders a markdown document to HTML.
///
/// Total: every input text is accepted, and the result is exactly the
/// rendering `spec_render` describes, so equal inputs give equal output.
pub fn render(markdown: &str) -> (html: String)
    ensures
        html@ == spec_render(markdown@),
{
    let n = markdown.unicode_len();
    let mut out = String::new();
    let mut i: usize = 0;
    proof {
        assert(markdown@.skip(0) =~= markdown@);
        assert(out@ + spec_render(markdown@) =~= spec_render(markdown@));
    }
    while i < n
        invariant
            i <= n,
            n == markdown@.len(),
            spec_render(markdown@) == out@ + spec_render(markdown@.skip(i as int)),
        decreases n - i,
    {
        let mut j: usize = i;
        while j < n && markdown.get_char(j) != '\n'
            invariant
                i <= j <= n,
                n == markdown@.len(),
                forall|k: int| i <= k < j ==> markdown@[k] != '\n',
            decreases n - j,
        {
            j = j + 1;
        }
        let ghost rest = markdown@.skip(i as int);
        proof {
            assert forall|k: int| 0 <= k < j - i implies rest[k] != '\n' by {
                assert(rest[k] == markdown@[i + k]);
            }
            if j < n {
                assert(rest[j - i] == markdown@[j as int]);
            }
            lemma_line_end_is(rest, (j - i) as nat);
        }
        let line = markdown.substring_char(i, j);
        let ghost out_before = out@;
        append_line_html(&mut out, line);
        proof {
            if j < n {
                assert(rest.take(j - i) =~= line@);
                assert(rest.skip(j - i + 1) =~= markdown@.skip(j as int + 1));
                assert(spec_render(rest) == line_html(line@) + spec_render(
                    markdown@.skip(j as int + 1),
                ));
                assert(out@ + spec_render(markdown@.skip(j as int + 1)) =~= out_before
                    + spec_render(rest));
            } else {
                assert(rest =~= line@);
                assert(spec_render(rest) == line_html(line@));
                assert(markdown@.skip(n as int).len() == 0);
                assert(out@ + spec_render(markdown@.skip(n as int)) =~= out_before + spec_render(
                    rest,
                ));
            }
        }
        if j < n {
            i = j + 1;
        } else {
            i = n;
        }
    }
    proof {
        assert(markdown@.skip(n as int).len() == 0);
        assert(out@ + spec_render(markdown@.skip(n as int)) =~= out@);
    }
    out
}

/// Law: rendering is a pure function of the input text. `render`'s contract
/// pins its result to `spec_render` of the input alone, so any two results
/// of rendering equal inputs — in one call or across repeated calls — are
/// equal character for character; there is no hidden state.
pub proof fn lemma_render_deterministic(m1: Seq<char>, m2: Seq<char>, h1: Seq<char>, h2: Seq<char>)
    requires
        m1 == m2,
        h1 == spec_render(m1),
        h2 == spec_render(m2),
    ensures
        h1 == h2,
{
}

/// The renderer: remembers the source path for display purposes only; the
/// rendering itself depends on the document content alone.
pub struct Renderer {
    pub display_md_path: String,
}

impl Renderer {
    pub fn new(display_md_path: String) -> (r: Renderer)
        ensures
            r.display_md_path == display_md_path,
    {
        Renderer { display_md_path }
    }

    /// Renders the current content of the source document.
    pub fn run(&self, content: &str) -> (html: String)
        ensures
            html@ == spec_render(content@),
    {
        render(content)
    }
}

} // verus!
