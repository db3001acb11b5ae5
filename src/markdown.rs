//! Markdown to HTML, with the tags a host refuses rewritten into ones it keeps.

use vstd::prelude::*;

use crate::text::{chars_of, string_of};

verus! {

/// The HTML that CommonMark with the strikethrough extension renders `text` to.
pub uninterp spec fn commonmark_html(text: Seq<char>) -> Seq<char>;

/// Relies on pulldown_cmark: `Parser::new_ext` with `ENABLE_STRIKETHROUGH`, rendered by
/// `html::push_html` into an empty string. The HTML depends on the text alone.
#[verifier::external_body]
fn render_commonmark(text: &str) -> (r: String)
    ensures
        r@ == commonmark_html(text@),
{
    let parser = pulldown_cmark::Parser::new_ext(text, pulldown_cmark::Options::ENABLE_STRIKETHROUGH);
    let mut html = String::new();
    pulldown_cmark::html::push_html(&mut html, parser);
    html
}

/// Whether `pat` stands in `s` at `i`.
pub open spec fn occurs_at(s: Seq<char>, pat: Seq<char>, i: int) -> bool {
    0 <= i && i + pat.len() <= s.len() && s.subrange(i, i + pat.len()) == pat
}

/// `s` with each occurrence of `pat` replaced by `rep`, left to right, without overlaps,
/// as `str::replace` does.
pub open spec fn replace_all(s: Seq<char>, pat: Seq<char>, rep: Seq<char>) -> Seq<char>
    decreases s.len(),
{
    if s.len() == 0 {
        Seq::empty()
    } else if pat.len() > 0 && occurs_at(s, pat, 0) {
        rep + replace_all(s.skip(pat.len() as int), pat, rep)
    } else {
        seq![s[0]] + replace_all(s.skip(1), pat, rep)
    }
}

/// The tag rewrites, in order: paragraph tags dropped; underline to a styleable span;
/// code blocks, with or without a language class, to a styleable div; inline code to a
/// styleable span.
pub open spec fn rewrite_tags(h: Seq<char>) -> Seq<char> {
    let h = replace_all(h, "<p>"@, ""@);
    let h = replace_all(h, "</p>"@, ""@);
    let h = replace_all(h, "<u>"@, "<span class=\"cohoard-underline\">"@);
    let h = replace_all(h, "</u>"@, "</span>"@);
    let h = replace_all(h, "<pre><code>"@, "<div class=\"cohoard-codeblock\">"@);
    let h = replace_all(h, "<pre><code class=\"language-"@, "<div class=\"cohoard-codeblock language-"@);
    let h = replace_all(h, "</code></pre>"@, "</div>"@);
    let h = replace_all(h, "<code>"@, "<span class=\"cohoard-code\">"@);
    replace_all(h, "</code>"@, "</span>"@)
}

/// Whether `pat` stands at `s[i..]`.
fn matches_at(s: &Vec<char>, pat: &Vec<char>, i: usize) -> (r: bool)
    requires
        i <= s.len(),
    ensures
        r == occurs_at(s@, pat@, i as int),
{
    if pat.len() > s.len() - i {
        return false;
    }
    let mut j: usize = 0;
    while j < pat.len()
        invariant
            j <= pat.len(),
            i + pat.len() <= s.len(),
            s@.subrange(i as int, i + j) == pat@.take(j as int),
        decreases pat.len() - j,
    {
        if s[i + j] != pat[j] {
            assert(s@.subrange(i as int, i + pat.len())[j as int] != pat@[j as int]);
            return false;
        }
        j = j + 1;
        assert(s@.subrange(i as int, i + j) =~= pat@.take(j as int));
    }
    assert(pat@.take(j as int) =~= pat@);
    true
}

/// `s` with each occurrence of `pat` replaced by `rep`.
fn replace_chars(s: &Vec<char>, pat: &str, rep: &str) -> (r: Vec<char>)
    ensures
        r@ == replace_all(s@, pat@, rep@),
{
    let pat = chars_of(pat);
    let rep = chars_of(rep);
    let mut out: Vec<char> = Vec::new();
    let mut i: usize = 0;
    assert(s@.skip(0) =~= s@);
    while i < s.len()
        invariant
            i <= s.len(),
            out@ + replace_all(s@.skip(i as int), pat@, rep@) == replace_all(s@, pat@, rep@),
        decreases s.len() - i,
    {
        let ghost t = s@.skip(i as int);
        if pat.len() > 0 && matches_at(s, &pat, i) {
            assert(t.subrange(0, pat@.len() as int) =~= s@.subrange(i as int, i + pat.len()));
            let mut k: usize = 0;
            let ghost before = out@;
            while k < rep.len()
                invariant
                    k <= rep.len(),
                    out@ == before + rep@.take(k as int),
                decreases rep.len() - k,
            {
                out.push(rep[k]);
                k = k + 1;
                assert(out@ =~= before + rep@.take(k as int));
            }
            assert(rep@.take(k as int) =~= rep@);
            assert(t.skip(pat@.len() as int) =~= s@.skip(i + pat.len()));
            i = i + pat.len();
            assert(out@ + replace_all(s@.skip(i as int), pat@, rep@) =~= replace_all(s@, pat@, rep@));
        } else {
            if pat.len() > 0 && pat.len() <= s.len() - i {
                assert(t.subrange(0, pat@.len() as int) =~= s@.subrange(i as int, i + pat.len()));
            }
            out.push(s[i]);
            assert(t.skip(1) =~= s@.skip(i + 1));
            i = i + 1;
            assert(out@ + replace_all(s@.skip(i as int), pat@, rep@) =~= replace_all(s@, pat@, rep@));
        }
    }
    assert(s@.skip(i as int) =~= Seq::<char>::empty());
    assert(out@ + Seq::<char>::empty() =~= out@);
    out
}

/// Rewrites the tags in `html` that a host refuses, as `rewrite_tags` describes.
pub fn rewrite_html_tags(html: &str) -> (r: String)
    ensures
        r@ == rewrite_tags(html@),
{
    let h = chars_of(html);
    let h = replace_chars(&h, "<p>", "");
    let h = replace_chars(&h, "</p>", "");
    let h = replace_chars(&h, "<u>", "<span class=\"cohoard-underline\">");
    let h = replace_chars(&h, "</u>", "</span>");
    let h = replace_chars(&h, "<pre><code>", "<div class=\"cohoard-codeblock\">");
    let h = replace_chars(&h, "<pre><code class=\"language-", "<div class=\"cohoard-codeblock language-");
    let h = replace_chars(&h, "</code></pre>", "</div>");
    let h = replace_chars(&h, "<code>", "<span class=\"cohoard-code\">");
    let h = replace_chars(&h, "</code>", "</span>");
    string_of(&h)
}

/// Renders a message's markdown to HTML, then rewrites the tags a host refuses.
pub fn markdown_to_html(message: &str) -> (r: String)
    ensures
        r@ == rewrite_tags(commonmark_html(message@)),
{
    let html = render_commonmark(message);
    rewrite_html_tags(html.as_str())
}

/// Where `pat` stands nowhere in `s`, replacing it leaves `s` as it is.
pub proof fn lemma_replace_absent(s: Seq<char>, pat: Seq<char>, rep: Seq<char>)
    requires
        forall|i: int| !occurs_at(s, pat, i),
    ensures
        replace_all(s, pat, rep) == s,
    decreases s.len(),
{
    if s.len() > 0 {
        let t = s.skip(1);
        assert forall|i: int| !occurs_at(t, pat, i) by {
            if occurs_at(t, pat, i) {
                assert(s.subrange(i + 1, i + 1 + pat.len()) =~= t.subrange(i, i + pat.len()));
                assert(occurs_at(s, pat, i + 1));
            }
        }
        lemma_replace_absent(t, pat, rep);
        assert(seq![s[0]] + t =~= s);
    }
}

/// HTML in which none of the rewritten tags stands passes the rewrites unchanged.
pub proof fn lemma_rewrite_plain(h: Seq<char>)
    requires
        forall|i: int| !occurs_at(h, "<p>"@, i),
        forall|i: int| !occurs_at(h, "</p>"@, i),
        forall|i: int| !occurs_at(h, "<u>"@, i),
        forall|i: int| !occurs_at(h, "</u>"@, i),
        forall|i: int| !occurs_at(h, "<pre><code>"@, i),
        forall|i: int| !occurs_at(h, "<pre><code class=\"language-"@, i),
        forall|i: int| !occurs_at(h, "</code></pre>"@, i),
        forall|i: int| !occurs_at(h, "<code>"@, i),
        forall|i: int| !occurs_at(h, "</code>"@, i),
    ensures
        rewrite_tags(h) == h,
{
    lemma_replace_absent(h, "<p>"@, ""@);
    lemma_replace_absent(h, "</p>"@, ""@);
    lemma_replace_absent(h, "<u>"@, "<span class=\"cohoard-underline\">"@);
    lemma_replace_absent(h, "</u>"@, "</span>"@);
    lemma_replace_absent(h, "<pre><code>"@, "<div class=\"cohoard-codeblock\">"@);
    lemma_replace_absent(h, "<pre><code class=\"language-"@, "<div class=\"cohoard-codeblock language-"@);
    lemma_replace_absent(h, "</code></pre>"@, "</div>"@);
    lemma_replace_absent(h, "<code>"@, "<span class=\"cohoard-code\">"@);
    lemma_replace_absent(h, "</code>"@, "</span>"@);
}

} // verus!
