//! Web research: search result pages become a few lines of context for the
//! model. The lines are read-only context in a prompt; nothing here is ever
//! parsed as a step.
use vstd::prelude::*;

use crate::text::{
    self, char_lists, chars_of, has_text, joined, position, split_text, string_of, texts, trimmed,
};

verus! {

/// How many blocks of a result page are read.
pub const RESULTS_PER_SEARCH: usize = 3;

#[derive(Debug, PartialEq, Eq)]
pub struct SearchResult {
    pub title: String,
    pub snippet: String,
    pub url: String,
}

/// The model of a `SearchResult`.
pub struct ResultView {
    pub title: Seq<char>,
    pub snippet: Seq<char>,
    pub url: Seq<char>,
}

impl View for SearchResult {
    type V = ResultView;

    open spec fn view(&self) -> ResultView {
        ResultView { title: self.title@, snippet: self.snippet@, url: self.url@ }
    }
}

/// The models of a list of results.
pub open spec fn search_results(results: Seq<SearchResult>) -> Seq<ResultView> {
    results.map_values(|r: SearchResult| r@)
}

/// What stands after the first `start`, up to the first `end` behind it.
pub open spec fn between(s: Seq<char>, start: Seq<char>, end: Seq<char>) -> Option<Seq<char>> {
    match position(s, start) {
        Some(i) => {
            let rest = s.skip(i + start.len());
            match position(rest, end) {
                Some(j) => Some(rest.take(j)),
                None => None,
            }
        },
        None => None,
    }
}

/// What stands after the first `start`, up to the first `end` behind it.
pub fn extract_between(haystack: &str, start: &str, end: &str) -> (r: Option<String>)
    ensures
        match r {
            Some(out) => between(haystack@, start@, end@) == Some(out@),
            None => between(haystack@, start@, end@) is None,
        },
{
    let s = chars_of(haystack);
    let first = chars_of(start);
    proof {
        text::lemma_find_from(s@, first@, 0);
    }
    match text::find_at(&s, &first, 0) {
        Some(i) => {
            let n = s.len();
            let rest = text::part(&s, i + first.len(), n);
            assert(rest@ == s@.skip(i + first@.len()));
            let second = chars_of(end);
            proof {
                text::lemma_find_from(rest@, second@, 0);
            }
            match text::find_at(&rest, &second, 0) {
                Some(j) => {
                    let found = text::part(&rest, 0, j);
                    assert(found@ == rest@.take(j as int));
                    Some(string_of(&found))
                },
                None => None,
            }
        },
        None => None,
    }
}

/// Markup read from left to right: what stands outside tags so far, and
/// whether a tag is open.
pub struct TagScan {
    pub out: Seq<char>,
    pub in_tag: bool,
}

/// What a text holds outside its tags.
pub open spec fn tag_scan(s: Seq<char>) -> TagScan
    decreases s.len(),
{
    if s.len() == 0 {
        TagScan { out: Seq::empty(), in_tag: false }
    } else {
        let before = tag_scan(s.drop_last());
        if s.last() == '<' {
            TagScan { in_tag: true, ..before }
        } else if s.last() == '>' {
            TagScan { in_tag: false, ..before }
        } else if before.in_tag {
            before
        } else {
            TagScan { out: before.out.push(s.last()), ..before }
        }
    }
}

/// A text without its tags and without the whitespace around what is left.
pub open spec fn stripped(s: Seq<char>) -> Seq<char> {
    trimmed(tag_scan(s).out)
}

/// A text without its tags and without the whitespace around what is left.
pub fn strip_tags(s: &str) -> (out: String)
    ensures
        out@ == stripped(s@),
{
    let chars = chars_of(s);
    let mut out: Vec<char> = Vec::new();
    let mut in_tag = false;
    for i in 0..chars.len()
        invariant
            chars@ == s@,
            out@ == tag_scan(s@.take(i as int)).out,
            in_tag == tag_scan(s@.take(i as int)).in_tag,
    {
        assert(s@.take(i + 1).drop_last() == s@.take(i as int));
        let c = chars[i];
        if c == '<' {
            in_tag = true;
        } else if c == '>' {
            in_tag = false;
        } else if !in_tag {
            out.push(c);
        }
    }
    assert(s@.take(s@.len() as int) == s@);
    string_of(&text::trim_chars(&out))
}

/// An optional text without its tags; empty where there is none.
pub open spec fn stripped_or_empty(s: Option<Seq<char>>) -> Seq<char> {
    match s {
        Some(t) => stripped(t),
        None => Seq::empty(),
    }
}

/// What a block of a result page says; there is no result without a title.
pub open spec fn block_result(block: Seq<char>) -> Option<ResultView> {
    let title = stripped_or_empty(between(block, "result__a\">"@, "</a>"@));
    let snippet = stripped_or_empty(between(block, "result__snippet\">"@, "</a>"@));
    let url = match between(block, "href=\""@, "\""@) {
        Some(u) => u,
        None => Seq::empty(),
    };
    if title.len() > 0 {
        Some(ResultView { title, snippet, url })
    } else {
        None
    }
}

/// The results of some blocks, in order.
pub open spec fn block_results(blocks: Seq<Seq<char>>) -> Seq<ResultView>
    decreases blocks.len(),
{
    if blocks.len() == 0 {
        Seq::empty()
    } else {
        let before = block_results(blocks.drop_last());
        match block_result(blocks.last()) {
            Some(r) => before.push(r),
            None => before,
        }
    }
}

/// The blocks of a result page: at most `max` of those behind a marker.
pub open spec fn page_blocks(html: Seq<char>, max: nat) -> Seq<Seq<char>> {
    let blocks = split_text(html, "result__body"@).drop_first();
    if blocks.len() <= max {
        blocks
    } else {
        blocks.take(max as int)
    }
}

/// The results of a result page.
pub open spec fn page_results(html: Seq<char>, max: nat) -> Seq<ResultView> {
    block_results(page_blocks(html, max))
}

fn strip_or_empty(s: Option<String>) -> (out: String)
    ensures
        out@ == stripped_or_empty(
            match s {
                Some(t) => Some(t@),
                None => None,
            },
        ),
{
    match s {
        Some(t) => strip_tags(t.as_str()),
        None => String::new(),
    }
}

fn parse_block(block: &str) -> (r: Option<SearchResult>)
    ensures
        match r {
            Some(result) => block_result(block@) == Some(result@),
            None => block_result(block@) is None,
        },
{
    let title = strip_or_empty(extract_between(block, "result__a\">", "</a>"));
    let snippet = strip_or_empty(extract_between(block, "result__snippet\">", "</a>"));
    let url = match extract_between(block, "href=\"", "\"") {
        Some(u) => u,
        None => String::new(),
    };
    if chars_of(title.as_str()).len() > 0 {
        Some(SearchResult { title, snippet, url })
    } else {
        None
    }
}

/// The results of a result page. A page with other markup has none.
pub fn parse_ddg_html(html: &str, max_results: usize) -> (results: Vec<SearchResult>)
    ensures
        search_results(results@) == page_results(html@, max_results as nat),
{
    let marker = chars_of("result__body");
    proof {
        reveal_strlit("result__body");
    }
    let pieces = text::split_str(&chars_of(html), &marker);
    let ghost all = split_text(html@, "result__body"@);
    let ghost blocks = page_blocks(html@, max_results as nat);
    assert(all == char_lists(pieces@));
    assert(all.len() > 0);
    let limit: usize = if pieces.len() - 1 <= max_results {
        pieces.len() - 1
    } else {
        max_results
    };
    let mut results: Vec<SearchResult> = Vec::new();
    assert(search_results(results@) == block_results(blocks.take(0)));
    for i in 0..limit
        invariant
            all == char_lists(pieces@),
            limit < pieces@.len(),
            limit == blocks.len(),
            forall|j: int| 0 <= j < limit ==> #[trigger] blocks[j] == all[j + 1],
            search_results(results@) == block_results(blocks.take(i as int)),
    {
        assert(blocks.take(i + 1).drop_last() == blocks.take(i as int));
        assert(all[i + 1] == pieces@[i + 1]@);
        assert(blocks[i as int] == all[i + 1]);
        let ghost before = search_results(results@);
        if let Some(result) = parse_block(string_of(&pieces[i + 1]).as_str()) {
            results.push(result);
            assert(search_results(results@) == before.push(result@));
        }
    }
    assert(blocks.take(blocks.len() as int) == blocks);
    results
}

/// What is searched for on behalf of a request.
pub open spec fn query_texts(request: Seq<char>, distro: Seq<char>) -> Seq<Seq<char>> {
    seq![
        request + " "@ + distro + " package name"@,
        request + " arch wiki OR official docs"@,
    ]
}

/// What to search for on behalf of a request.
pub fn research_queries(user_request: &str, distro: &str) -> (queries: Vec<String>)
    ensures
        texts(queries@) == query_texts(user_request@, distro@),
{
    let mut package = user_request.to_string();
    package.append(" ");
    package.append(distro);
    package.append(" package name");
    let mut docs = user_request.to_string();
    docs.append(" arch wiki OR official docs");
    let queries = vec![package, docs];
    assert(texts(queries@) == query_texts(user_request@, distro@));
    queries
}

/// The line of context that a result becomes.
pub open spec fn result_line(r: ResultView) -> Seq<char> {
    "- "@ + r.title + " ("@ + r.url + "): "@ + r.snippet
}

pub open spec fn result_lines(results: Seq<ResultView>) -> Seq<Seq<char>> {
    results.map_values(|r: ResultView| result_line(r))
}

/// The text in an optional page.
pub open spec fn page_text(page: Option<String>) -> Option<Seq<char>> {
    match page {
        Some(html) => Some(html@),
        None => None,
    }
}

/// The lines of context of some searches, in order. A search that failed has
/// no page and adds nothing.
pub open spec fn context_lines(pages: Seq<Option<String>>) -> Seq<Seq<char>>
    decreases pages.len(),
{
    if pages.len() == 0 {
        Seq::empty()
    } else {
        let before = context_lines(pages.drop_last());
        match page_text(pages.last()) {
            Some(html) => before + result_lines(page_results(html, RESULTS_PER_SEARCH as nat)),
            None => before,
        }
    }
}

/// The context that the searches give; empty if they gave nothing.
pub open spec fn context_text(pages: Seq<Option<String>>) -> Seq<char> {
    joined(context_lines(pages), "\n"@)
}

fn push_lines(lines: &mut Vec<String>, results: &Vec<SearchResult>)
    ensures
        texts(final(lines)@) == texts(old(lines)@) + result_lines(search_results(results@)),
{
    let ghost start = texts(lines@);
    let ghost wanted = result_lines(search_results(results@));
    assert(start + wanted.take(0) == start);
    for i in 0..results.len()
        invariant
            wanted == result_lines(search_results(results@)),
            texts(lines@) == start + wanted.take(i as int),
    {
        let ghost before = texts(lines@);
        let r = &results[i];
        let mut line = "- ".to_string();
        line.append(r.title.as_str());
        line.append(" (");
        line.append(r.url.as_str());
        line.append("): ");
        line.append(r.snippet.as_str());
        assert(line@ == wanted[i as int]);
        lines.push(line);
        assert(texts(lines@) == before.push(line@));
        assert(wanted.take(i + 1) == wanted.take(i as int).push(wanted[i as int]));
    }
    assert(wanted.take(results@.len() as int) == wanted);
}

/// The context for the planner prompt, from the pages that the searches gave,
/// in the order of the queries; a search that failed gave none.
pub fn research_context(pages: &Vec<Option<String>>) -> (context: String)
    ensures
        context@ == context_text(pages@),
{
    let mut lines: Vec<String> = Vec::new();
    assert(texts(lines@) == context_lines(pages@.take(0)));
    for i in 0..pages.len()
        invariant
            texts(lines@) == context_lines(pages@.take(i as int)),
    {
        assert(pages@.take(i + 1).drop_last() == pages@.take(i as int));
        if let Some(html) = &pages[i] {
            let results = parse_ddg_html(html.as_str(), RESULTS_PER_SEARCH);
            push_lines(&mut lines, &results);
        }
    }
    assert(pages@.take(pages@.len() as int) == pages@);
    text::join(&lines, "\n")
}

/// A page gives at most as many results as were asked for, and none without a
/// title.
pub proof fn law_results_are_limited(html: Seq<char>, max: nat)
    ensures
        page_results(html, max).len() <= max,
        forall|i: int|
            0 <= i < page_results(html, max).len() ==> (#[trigger] page_results(
                html,
                max,
            )[i]).title.len() > 0,
{
    lemma_block_results(page_blocks(html, max));
}

proof fn lemma_block_results(blocks: Seq<Seq<char>>)
    ensures
        block_results(blocks).len() <= blocks.len(),
        forall|i: int|
            0 <= i < block_results(blocks).len() ==> (#[trigger] block_results(
                blocks,
            )[i]).title.len() > 0,
    decreases blocks.len(),
{
    if blocks.len() > 0 {
        lemma_block_results(blocks.drop_last());
    }
}

proof fn lemma_trimmed_chars(s: Seq<char>, i: int)
    requires
        0 <= i < trimmed(s).len(),
    ensures
        s.contains(trimmed(s)[i]),
{
    lemma_trimmed_start(s);
    lemma_trimmed_end(text::trimmed_start(s));
    let t = text::trimmed_start(s);
    assert(trimmed(s)[i] == t[i]);
    assert(t[i] == s[i + s.len() - t.len()]);
}

proof fn lemma_trimmed_start(s: Seq<char>)
    ensures
        text::trimmed_start(s).len() <= s.len(),
        text::trimmed_start(s) == s.skip(s.len() - text::trimmed_start(s).len()),
    decreases s.len(),
{
    if s.len() > 0 && text::whitespace(s[0]) {
        lemma_trimmed_start(s.drop_first());
        let t = text::trimmed_start(s);
        assert(s.drop_first().skip(s.len() - 1 - t.len()) == s.skip(s.len() - t.len()));
    } else {
        assert(s.skip(0) == s);
    }
}

proof fn lemma_trimmed_end(s: Seq<char>)
    ensures
        text::trimmed_end(s).len() <= s.len(),
        text::trimmed_end(s) == s.take(text::trimmed_end(s).len() as int),
    decreases s.len(),
{
    if s.len() > 0 && text::whitespace(s.last()) {
        lemma_trimmed_end(s.drop_last());
        let t = text::trimmed_end(s);
        assert(s.drop_last().take(t.len() as int) == s.take(t.len() as int));
    } else {
        assert(s.take(s.len() as int) == s);
    }
}

proof fn lemma_tag_scan(s: Seq<char>)
    ensures
        forall|i: int|
            0 <= i < tag_scan(s).out.len() ==> #[trigger] tag_scan(s).out[i] != '<' && tag_scan(
                s,
            ).out[i] != '>',
    decreases s.len(),
{
    if s.len() > 0 {
        lemma_tag_scan(s.drop_last());
        let before = tag_scan(s.drop_last()).out;
        let out = tag_scan(s).out;
        assert forall|i: int| 0 <= i < out.len() implies #[trigger] out[i] != '<' && out[i]
            != '>' by {
            if i < before.len() {
                assert(out[i] == before[i]);
            }
        }
    }
}

/// A text whose tags were stripped holds no angle bracket.
pub proof fn law_stripped_text_has_no_tags(s: Seq<char>, i: int)
    requires
        0 <= i < stripped(s).len(),
    ensures
        stripped(s)[i] != '<',
        stripped(s)[i] != '>',
{
    lemma_tag_scan(s);
    lemma_trimmed_chars(tag_scan(s).out, i);
    let out = tag_scan(s).out;
    let k = choose|k: int| 0 <= k < out.len() && out[k] == stripped(s)[i];
    assert(out[k] != '<' && out[k] != '>');
}

/// No character of the text is an angle bracket.
pub open spec fn no_brackets(s: Seq<char>) -> bool {
    forall|i: int| 0 <= i < s.len() ==> #[trigger] s[i] != '<' && s[i] != '>'
}

/// A text without angle brackets is only trimmed.
pub proof fn law_plain_text_is_only_trimmed(s: Seq<char>)
    requires
        no_brackets(s),
    ensures
        stripped(s) == trimmed(s),
{
    lemma_plain_scan(s);
}

proof fn lemma_plain_scan(s: Seq<char>)
    requires
        no_brackets(s),
    ensures
        tag_scan(s) == (TagScan { out: s, in_tag: false }),
    decreases s.len(),
{
    if s.len() > 0 {
        assert forall|i: int| 0 <= i < s.len() - 1 implies #[trigger] s.drop_last()[i] != '<'
            && s.drop_last()[i] != '>' by {
            assert(s[i] != '<');
        }
        lemma_plain_scan(s.drop_last());
        assert(s == s.drop_last().push(s.last()));
    } else {
        assert(s == Seq::<char>::empty());
    }
}

/// A second stripping changes nothing.
pub proof fn law_stripping_twice_is_stripping_once(s: Seq<char>)
    ensures
        stripped(stripped(s)) == stripped(s),
{
    let once = stripped(s);
    assert forall|i: int| 0 <= i < once.len() implies #[trigger] once[i] != '<' && once[i]
        != '>' by {
        law_stripped_text_has_no_tags(s, i);
    }
    law_plain_text_is_only_trimmed(once);
    lemma_trimmed_again(tag_scan(s).out);
}

proof fn lemma_trimmed_again(s: Seq<char>)
    ensures
        trimmed(trimmed(s)) == trimmed(s),
{
    let t = text::trimmed_start(s);
    let u = text::trimmed_end(t);
    lemma_trimmed_start(s);
    lemma_trimmed_end(t);
    lemma_trimmed_ends(s);
    lemma_trimmed_ends(t);
    if u.len() > 0 {
        assert(u[0] == t[0]);
    }
}

proof fn lemma_trimmed_ends(s: Seq<char>)
    ensures
        text::trimmed_start(s).len() > 0 ==> !text::whitespace(text::trimmed_start(s)[0]),
        text::trimmed_end(s).len() > 0 ==> !text::whitespace(text::trimmed_end(s).last()),
    decreases s.len(),
{
    if s.len() > 0 {
        lemma_trimmed_ends(s.drop_first());
        lemma_trimmed_ends(s.drop_last());
    }
}

/// What is taken from between two marks stands behind the first occurrence of
/// the one and reaches up to the first of the other behind it; where either is
/// missing, nothing is taken.
pub proof fn law_what_stands_between_two_marks(
    before: Seq<char>,
    start: Seq<char>,
    middle: Seq<char>,
    end: Seq<char>,
    after: Seq<char>,
    s: Seq<char>,
)
    requires
        forall|j: int|
            0 <= j < before.len() ==> !#[trigger] text::occurs_at(
                before + start + middle + end + after,
                start,
                j,
            ),
        forall|j: int|
            0 <= j < middle.len() ==> !#[trigger] text::occurs_at(middle + end + after, end, j),
    ensures
        between(before + start + middle + end + after, start, end) == Some(middle),
        !has_text(s, start) ==> between(s, start, end) is None,
        !has_text(s, end) ==> between(s, start, end) is None,
{
    let whole = before + start + middle + end + after;
    let i = before.len() as int;
    assert(whole.subrange(i, i + start.len()) == start);
    assert(text::occurs_at(whole, start, i));
    text::lemma_find_from(whole, start, 0);
    assert(position(whole, start) == Some(i));
    let rest = whole.skip(i + start.len());
    assert(rest == middle + end + after);
    let j = middle.len() as int;
    assert(rest.subrange(j, j + end.len()) == end);
    assert(text::occurs_at(rest, end, j));
    text::lemma_find_from(rest, end, 0);
    assert(position(rest, end) == Some(j));
    assert(rest.take(j) == middle);
    text::lemma_find_from(s, start, 0);
    if let Some(k) = position(s, start) {
        assert(text::occurs_at(s, start, k));
        let tail = s.skip(k + start.len());
        text::lemma_find_from(tail, end, 0);
        if let Some(m) = position(tail, end) {
            let n = k + start.len() + m;
            assert(s.subrange(n, n + end.len()) == tail.subrange(m, m + end.len()));
            assert(text::occurs_at(s, end, n));
        }
    }
}

proof fn lemma_first_place(s: Seq<char>, pat: Seq<char>, k: int, m: int)
    requires
        text::occurs_at(s, pat, k),
        0 <= m < pat.len(),
        forall|j: int| 0 <= j < k + m ==> #[trigger] s[j] != pat[m],
    ensures
        forall|j: int| 0 <= j < k ==> !#[trigger] text::occurs_at(s, pat, j),
{
    assert forall|j: int| 0 <= j < k implies !#[trigger] text::occurs_at(s, pat, j) by {
        if text::occurs_at(s, pat, j) {
            assert(s.subrange(j, j + pat.len())[m] == s[j + m]);
        }
    }
}

/// A text without marks of markup.
pub open spec fn is_unmarked(s: Seq<char>) -> bool {
    !s.contains('<') && !s.contains('>') && !s.contains('"')
}

/// A result is read from its markup: the address from the link, the title from
/// its text and the description from the text behind it, the last two without
/// the whitespace around them. A result without a title is none.
pub proof fn law_a_result_is_read_from_its_markup(
    url: Seq<char>,
    title: Seq<char>,
    snippet: Seq<char>,
)
    requires
        is_unmarked(url) && is_unmarked(title) && is_unmarked(snippet),
    ensures
        ({
            let block = "href=\""@ + url + "\" class=\"result__a\">"@ + title
                + "</a><a class=\"result__snippet\">"@ + snippet + "</a>"@;
            block_result(block) == if trimmed(title).len() > 0 {
                Some(ResultView { title: trimmed(title), snippet: trimmed(snippet), url })
            } else {
                None
            }
        }),
{
    let href = "href=\""@;
    let link = "\" class=\"result__a\">"@;
    let desc = "</a><a class=\"result__snippet\">"@;
    let close = "</a>"@;
    let quote = "\""@;
    let block = href + url + link + title + desc + snippet + close;
    reveal_strlit("href=\"");
    reveal_strlit("\" class=\"result__a\">");
    reveal_strlit("</a><a class=\"result__snippet\">");
    reveal_strlit("</a>");
    reveal_strlit("\"");
    reveal_strlit("result__a\">");
    reveal_strlit("result__snippet\">");
    assert forall|i: int| 0 <= i < url.len() implies #[trigger] url[i] != '<' && url[i] != '>'
        && url[i] != '"' by {
        assert(url.contains(url[i]));
    }
    assert forall|i: int| 0 <= i < title.len() implies #[trigger] title[i] != '<' && title[i] != '>'
        && title[i] != '"' by {
        assert(title.contains(title[i]));
    }
    assert forall|i: int| 0 <= i < snippet.len() implies #[trigger] snippet[i] != '<' && snippet[i]
        != '>' && snippet[i] != '"' by {
        assert(snippet.contains(snippet[i]));
    }
    law_plain_text_is_only_trimmed(title);
    law_plain_text_is_only_trimmed(snippet);
    lemma_url_place(url, link + title + desc + snippet + close);
    assert(block == href + url + (link + title + desc + snippet + close));
    reveal_strlit("\" class=\"");
    let lead = href + url + "\" class=\""@;
    assert forall|i: int| 0 <= i < lead.len() implies #[trigger] lead[i] != '>' by {
        if 6 <= i < 6 + url.len() {
            assert(lead[i] == url[i - 6]);
        } else if i >= 6 + url.len() {
            assert(lead[i] == "\" class=\""@[i - 6 - url.len()]);
        }
    }
    lemma_title_place(lead, title, "<a class=\"result__snippet\">"@ + snippet + close);
    reveal_strlit("<a class=\"result__snippet\">");
    assert(link == "\" class=\""@ + "result__a\">"@);
    assert(desc == close + "<a class=\"result__snippet\">"@);
    assert(block == (href + url + "\" class=\""@) + "result__a\">"@ + title + close + (
    "<a class=\"result__snippet\">"@ + snippet + close));
    lemma_snippet_place(href + url + "\" class=\""@, title, snippet);
    reveal_strlit("</a><a class=\"");
    assert(desc == "</a><a class=\""@ + "result__snippet\">"@);
    assert(block == (href + url + "\" class=\""@) + "result__a\">"@ + title + "</a><a class=\""@
        + "result__snippet\">"@ + snippet + close + Seq::<char>::empty());
}

proof fn lemma_url_place(url: Seq<char>, tail: Seq<char>)
    requires
        forall|i: int| 0 <= i < url.len() ==> #[trigger] url[i] != '"',
        tail.len() > 0,
        tail[0] == '"',
    ensures
        between("href=\""@ + url + tail, "href=\""@, "\""@) == Some(url),
{
    let href = "href=\""@;
    let quote = "\""@;
    reveal_strlit("\"");
    let rest = tail.skip(1);
    assert(tail == quote + rest);
    let nothing = Seq::<char>::empty();
    let whole = nothing + href + url + quote + rest;
    assert(whole == href + url + tail);
    let inner = url + quote + rest;
    assert(inner.subrange(url.len() as int, url.len() as int + 1) == quote);
    assert(text::occurs_at(inner, quote, url.len() as int));
    lemma_first_place(inner, quote, url.len() as int, 0);
    law_what_stands_between_two_marks(nothing, href, url, quote, rest, whole);
}

proof fn lemma_title_place(lead: Seq<char>, title: Seq<char>, tail: Seq<char>)
    requires
        forall|i: int| 0 <= i < lead.len() ==> #[trigger] lead[i] != '>',
        forall|i: int| 0 <= i < title.len() ==> #[trigger] title[i] != '<',
    ensures
        between(
            lead + "result__a\">"@ + title + "</a>"@ + tail,
            "result__a\">"@,
            "</a>"@,
        ) == Some(title),
{
    let mark = "result__a\">"@;
    let close = "</a>"@;
    reveal_strlit("result__a\">");
    reveal_strlit("</a>");
    let whole = lead + mark + title + close + tail;
    let k = lead.len() as int;
    assert(whole.subrange(k, k + 11) == mark);
    assert(text::occurs_at(whole, mark, k));
    assert forall|j: int| 0 <= j < k + 10 implies #[trigger] whole[j] != mark[10] by {
        if j < k {
            assert(whole[j] == lead[j]);
        } else {
            assert(whole[j] == mark[j - k]);
        }
    }
    lemma_first_place(whole, mark, k, 10);
    let inner = title + close + tail;
    let n = title.len() as int;
    assert(inner.subrange(n, n + 4) == close);
    assert(text::occurs_at(inner, close, n));
    lemma_first_place(inner, close, n, 0);
    law_what_stands_between_two_marks(lead, mark, title, close, tail, whole);
}

proof fn lemma_no_earlier_mark(
    lead: Seq<char>,
    mark: Seq<char>,
    title: Seq<char>,
    middle: Seq<char>,
    start: Seq<char>,
    tail: Seq<char>,
)
    requires
        forall|i: int| 0 <= i < lead.len() ==> #[trigger] lead[i] != '>',
        forall|i: int| 0 <= i < title.len() ==> #[trigger] title[i] != '>',
        mark.len() == 11 && mark[8] == 'a',
        forall|i: int| 0 <= i < 10 ==> #[trigger] mark[i] != '>',
        middle.len() > 3 && middle[2] == 'a',
        forall|i: int| 0 <= i < middle.len() && i != 3 ==> #[trigger] middle[i] != '>',
        start.len() == 17 && start[14] == 't' && start[15] == '"' && start[16] == '>',
        forall|i: int| 0 <= i < 16 ==> #[trigger] start[i] != '>',
    ensures
        forall|j: int|
            0 <= j < lead.len() + 11 + title.len() + middle.len() ==> !#[trigger] text::occurs_at(
                lead + mark + title + middle + start + tail,
                start,
                j,
            ),
{
    let whole = lead + mark + title + middle + start + tail;
    let a = lead.len() as int;
    let b = a + 11;
    let c = b + title.len();
    let k = c + middle.len();
    assert forall|j: int| 0 <= j < k implies !#[trigger] text::occurs_at(whole, start, j) by {
        if text::occurs_at(whole, start, j) {
            let sub = whole.subrange(j, j + 17);
            let p = j + 16;
            assert(sub[16] == whole[p] && sub[15] == whole[p - 1] && sub[14] == whole[p - 2]);
            if p < a {
                assert(whole[p] == lead[p]);
            } else if p < b {
                assert(whole[p] == mark[p - a]);
                assert(whole[p - 2] == mark[8]);
            } else if p < c {
                assert(whole[p] == title[p - b]);
            } else if p < k {
                assert(whole[p] == middle[p - c]);
                assert(whole[p - 1] == middle[2]);
            } else {
                assert(whole[p] == start[p - k]);
            }
        }
    }
}

proof fn lemma_snippet_place(lead: Seq<char>, title: Seq<char>, snippet: Seq<char>)
    requires
        forall|i: int| 0 <= i < lead.len() ==> #[trigger] lead[i] != '>',
        forall|i: int| 0 <= i < title.len() ==> #[trigger] title[i] != '>',
        forall|i: int| 0 <= i < snippet.len() ==> #[trigger] snippet[i] != '<',
    ensures
        between(
            lead + "result__a\">"@ + title + "</a><a class=\""@ + "result__snippet\">"@ + snippet
                + "</a>"@ + Seq::empty(),
            "result__snippet\">"@,
            "</a>"@,
        ) == Some(snippet),
{
    let mark = "result__a\">"@;
    let middle = "</a><a class=\""@;
    let start = "result__snippet\">"@;
    let close = "</a>"@;
    let nothing = Seq::<char>::empty();
    reveal_strlit("result__a\">");
    reveal_strlit("</a><a class=\"");
    reveal_strlit("result__snippet\">");
    reveal_strlit("</a>");
    let front = lead + mark + title + middle;
    let whole = front + start + snippet + close + nothing;
    let k = front.len() as int;
    lemma_no_earlier_mark(lead, mark, title, middle, start, snippet + close + nothing);
    assert(whole == lead + mark + title + middle + start + (snippet + close + nothing));
    let inner = snippet + close + nothing;
    let n = snippet.len() as int;
    assert(inner.subrange(n, n + 4) == close);
    assert(text::occurs_at(inner, close, n));
    lemma_first_place(inner, close, n, 0);
    law_what_stands_between_two_marks(front, start, snippet, close, nothing, whole);
}

/// The blocks of a page are what its markers set off, without what stands
/// before the first, in order, and no more of them than were asked for.
pub proof fn law_blocks_stand_behind_their_markers(html: Seq<char>, max: nat)
    ensures
        ({
            let pieces = split_text(html, "result__body"@);
            let blocks = page_blocks(html, max);
            &&& blocks.len() <= max && blocks.len() <= pieces.len() - 1
            &&& blocks.len() == max || blocks.len() == pieces.len() - 1
            &&& forall|i: int| 0 <= i < blocks.len() ==> #[trigger] blocks[i] == pieces[i + 1]
        }),
{
    reveal_strlit("result__body");
    text::law_pieces_between_a_text(html, "result__body"@);
}

/// The results of blocks come in the order of the blocks; a block without a
/// result adds nothing.
pub proof fn law_results_come_in_order(a: Seq<Seq<char>>, b: Seq<Seq<char>>, block: Seq<char>)
    ensures
        block_results(a + b) == block_results(a) + block_results(b),
        block_results(seq![block]) == match block_result(block) {
            Some(r) => seq![r],
            None => Seq::empty(),
        },
    decreases b.len(),
{
    assert(seq![block].drop_last() == Seq::<Seq<char>>::empty());
    assert(seq![block].last() == block);
    assert(block_results(Seq::empty()) == Seq::<ResultView>::empty());
    assert(block_results(seq![block]) == match block_result(block) {
        Some(r) => seq![r],
        None => Seq::empty(),
    });
    if b.len() == 0 {
        assert(a + b == a);
        assert(block_results(a) + block_results(b) == block_results(a));
    } else {
        law_results_come_in_order(a, b.drop_last(), block);
        assert((a + b).drop_last() == a + b.drop_last());
        assert((a + b).last() == b.last());
        assert(block_results(a + b) == block_results(a) + block_results(b));
    }
}

/// The pages are read in order, three results from each; one that could not be
/// had adds nothing.
pub proof fn law_pages_are_read_in_order(
    a: Seq<Option<String>>,
    b: Seq<Option<String>>,
    html: String,
)
    ensures
        context_lines(a + b) == context_lines(a) + context_lines(b),
        context_lines(seq![None]) == Seq::<Seq<char>>::empty(),
        context_lines(seq![Some(html)]) == result_lines(page_results(html@, 3)),
        context_lines(Seq::empty()) == Seq::<Seq<char>>::empty(),
    decreases b.len(),
{
    let none = Seq::<Option<String>>::empty();
    let missing: Seq<Option<String>> = seq![None];
    assert(missing.drop_last() == none && missing.last() is None);
    assert(seq![Some(html)].drop_last() == none && seq![Some(html)].last() == Some(html));
    assert(context_lines(none) == Seq::<Seq<char>>::empty());
    assert(context_lines(seq![Some(html)]) == result_lines(page_results(html@, 3)));
    if b.len() == 0 {
        assert(a + b == a);
        assert(context_lines(a) + context_lines(b) == context_lines(a));
    } else {
        law_pages_are_read_in_order(a, b.drop_last(), html);
        assert((a + b).drop_last() == a + b.drop_last());
        assert((a + b).last() == b.last());
        assert(context_lines(a + b) == context_lines(a) + context_lines(b));
    }
}

/// A line of context holds the title, the address in brackets and the
/// description, in that order and in full, and there is a line for each result.
pub proof fn law_lines_of_context_hold_their_result(r: ResultView, results: Seq<ResultView>, i: int)
    ensures
        ({
            let line = result_line(r);
            let title = "- "@ + r.title;
            let url = " ("@ + r.url + ")"@;
            let snippet = ": "@ + r.snippet;
            line == title + url + snippet
        }),
        result_lines(results).len() == results.len(),
        0 <= i < results.len() ==> result_lines(results)[i] == result_line(results[i]),
{
    reveal_strlit(")");
    reveal_strlit(": ");
    reveal_strlit("): ");
    assert("): "@ == ")"@ + ": "@);
    assert(result_line(r) == "- "@ + r.title + (" ("@ + r.url + ")"@) + (": "@ + r.snippet));
}

/// Two searches are made for a request: for the name of the package in the
/// distribution, and for the documentation.
pub proof fn law_a_request_is_searched_for_twice(request: Seq<char>, distro: Seq<char>)
    ensures
        query_texts(request, distro) == seq![
            joined(seq![request, distro, "package name"@], " "@),
            joined(seq![request, "arch wiki OR official docs"@], " "@),
        ],
{
    let space = " "@;
    let a = seq![request, distro, "package name"@];
    let b = seq![request, "arch wiki OR official docs"@];
    reveal_strlit(" ");
    reveal_strlit("package name");
    reveal_strlit(" package name");
    reveal_strlit("arch wiki OR official docs");
    reveal_strlit(" arch wiki OR official docs");
    assert(" package name"@ == space + "package name"@);
    assert(" arch wiki OR official docs"@ == space + "arch wiki OR official docs"@);
    assert(a.drop_last() == seq![request, distro]);
    assert(seq![request, distro].drop_last() == seq![request]);
    assert(b.drop_last() == seq![request]);
    assert(joined(seq![request], space) == request);
    assert(joined(seq![request, distro], space) == request + space + distro);
    assert(joined(a, space) == request + space + distro + " package name"@);
    assert(joined(b, space) == request + " arch wiki OR official docs"@);
    assert(query_texts(request, distro) == seq![joined(a, space), joined(b, space)]);
}

/// A tag is left out from its opening bracket to its closing one, with all that
/// stands between; what comes before it stays, and what comes after it is read
/// for itself. A tag that never closes takes the rest with it.
pub proof fn law_tags_are_left_out(a: Seq<char>, tag: Seq<char>, b: Seq<char>)
    requires
        no_brackets(a),
        !tag.contains('>'),
    ensures
        tag_scan(a + seq!['<'] + tag + seq!['>'] + b).out == a + tag_scan(b).out,
        tag_scan(a + seq!['<'] + tag).out == a,
        tag_scan(a + seq!['>'] + b).out == a + tag_scan(b).out,
{
    lemma_plain_scan(a);
    let opened = a + seq!['<'];
    assert(opened.drop_last() == a && opened.last() == '<');
    lemma_scan_in_tag(opened, tag);
    let inside = opened + tag;
    let closed = inside + seq!['>'];
    assert(closed.drop_last() == inside && closed.last() == '>');
    lemma_scan_after(closed, b);
    let stray = a + seq!['>'];
    assert(stray.drop_last() == a && stray.last() == '>');
    lemma_scan_after(stray, b);
}

proof fn lemma_scan_in_tag(s: Seq<char>, tag: Seq<char>)
    requires
        tag_scan(s).in_tag,
        !tag.contains('>'),
    ensures
        tag_scan(s + tag) == tag_scan(s),
    decreases tag.len(),
{
    if tag.len() == 0 {
        assert(s + tag == s);
    } else {
        let init = tag.drop_last();
        if init.contains('>') {
            let i = choose|i: int| 0 <= i < init.len() && init[i] == '>';
            assert(tag[i] == '>');
        }
        lemma_scan_in_tag(s, init);
        assert((s + tag).drop_last() == s + init);
        assert((s + tag).last() == tag[tag.len() - 1]);
        assert(tag.contains(tag[tag.len() - 1]));
    }
}

proof fn lemma_scan_after(s: Seq<char>, b: Seq<char>)
    requires
        !tag_scan(s).in_tag,
    ensures
        tag_scan(s + b).out == tag_scan(s).out + tag_scan(b).out,
        tag_scan(s + b).in_tag == tag_scan(b).in_tag,
    decreases b.len(),
{
    if b.len() == 0 {
        assert(s + b == s);
        assert(tag_scan(s).out + tag_scan(b).out == tag_scan(s).out);
    } else {
        lemma_scan_after(s, b.drop_last());
        assert((s + b).drop_last() == s + b.drop_last());
        assert((s + b).last() == b.last());
        assert(tag_scan(s + b).out == tag_scan(s).out + tag_scan(b).out);
    }
}

/// The context has a line for each result, and nothing where there is none;
/// what two lots of pages give comes one after the other, on lines of its own.
pub proof fn law_the_context_has_a_line_for_each_result(
    a: Seq<Option<String>>,
    b: Seq<Option<String>>,
    html: String,
)
    ensures
        context_lines(a).len() == 0 ==> context_text(a).len() == 0 && context_text(a + b)
            == context_text(b),
        context_lines(b).len() == 0 ==> context_text(a + b) == context_text(a),
        context_lines(a).len() > 0 && context_lines(b).len() > 0 ==> context_text(a + b)
            == context_text(a) + seq!['\n'] + context_text(b),
        context_lines(a).len() == 1 ==> context_text(a) == context_lines(a)[0],
{
    reveal_strlit("\n");
    assert("\n"@ == seq!['\n']);
    law_pages_are_read_in_order(a, b, html);
    text::law_joining_two_lists(context_lines(a), context_lines(b), "\n"@);
}

} // verus!
