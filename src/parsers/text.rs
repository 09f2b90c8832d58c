//! Plain-text extraction: lines are trimmed, blank lines separate
//! paragraphs, and the options decide what whitespace survives.
use vstd::prelude::*;

use crate::parsers::ParseResult;
use crate::strs::{
    lemma_char_views_push, lemma_map_push, lemma_string_views_push, chars_of, char_views, collapse_chars, collapse_ws, is_blank, join, join_chars,
    lines, lines_of, split_blank, split_blank_chars, string_of, string_views, trim, trim_chars,
};
use crate::strs::{
    is_ws, lemma_collapse_no_newline, lemma_collapse_nonempty, lemma_lines_no_newline,
    lemma_split_blank_join, lemma_trim_end_shape, has_triple_newline, lemma_join_no_triple_newline, lemma_trim_start_no_newline, no_newline,
    trim_start, all_ws, lemma_lines_all_ws, lemma_trim_empty_all_ws,
};

verus! {

/// Configuration options for text parsing.
#[derive(Debug, Clone, Copy)]
pub struct TextParserOptions {
    /// Whether to keep paragraphs apart by one blank line.
    pub preserve_paragraphs: bool,
    /// Whether to keep single newlines within paragraphs.
    pub preserve_line_breaks: bool,
    /// Whether to collapse runs of whitespace into single spaces.
    pub normalize_whitespace: bool,
    /// Whether URL-like text is kept intact (it always is; links are never extracted from text).
    pub detect_urls: bool,
}

/// The options `TextParserOptions::default` gives.
pub open spec fn default_options() -> TextParserOptions {
    TextParserOptions {
        preserve_paragraphs: false,
        preserve_line_breaks: false,
        normalize_whitespace: true,
        detect_urls: true,
    }
}

impl Default for TextParserOptions {
    fn default() -> (r: Self)
        ensures
            r == default_options(),
    {
        TextParserOptions {
            preserve_paragraphs: false,
            preserve_line_breaks: false,
            normalize_whitespace: true,
            detect_urls: true,
        }
    }
}

/// Reading the lines from the top: the paragraphs finished so far and the
/// trimmed lines of the paragraph being read.
pub open spec fn paragraph_state(ls: Seq<Seq<char>>) -> (Seq<Seq<Seq<char>>>, Seq<Seq<char>>)
    decreases ls.len(),
{
    if ls.len() == 0 {
        (Seq::empty(), Seq::empty())
    } else {
        let prev = paragraph_state(ls.drop_last());
        let t = trim(ls.last());
        if t.len() == 0 {
            if prev.1.len() > 0 {
                (prev.0.push(prev.1), Seq::empty())
            } else {
                prev
            }
        } else {
            (prev.0, prev.1.push(t))
        }
    }
}

/// The paragraphs of `text`: maximal runs of non-blank lines, each line trimmed.
pub open spec fn paragraphs(text: Seq<char>) -> Seq<Seq<Seq<char>>> {
    let st = paragraph_state(lines(text));
    if st.1.len() > 0 {
        st.0.push(st.1)
    } else {
        st.0
    }
}

/// What stands between the lines of one paragraph.
pub open spec fn line_sep(o: TextParserOptions) -> Seq<char> {
    if o.preserve_line_breaks {
        seq!['\n']
    } else {
        seq![' ']
    }
}

/// What stands between two paragraphs.
pub open spec fn paragraph_sep(o: TextParserOptions) -> Seq<char> {
    if o.preserve_paragraphs {
        seq!['\n', '\n']
    } else {
        seq![' ']
    }
}

/// One paragraph's lines joined into one text.
pub open spec fn processed_paragraph(p: Seq<Seq<char>>, o: TextParserOptions) -> Seq<char> {
    join(p, line_sep(o))
}

/// A line as the line-preserving mode leaves it: blank lines stay as they
/// are, others have their whitespace collapsed.
pub open spec fn normalized_line(l: Seq<char>) -> Seq<char> {
    if trim(l).len() == 0 {
        l
    } else {
        collapse_ws(l)
    }
}

/// `text` with its whitespace normalized as the options ask.
pub open spec fn normalized(text: Seq<char>, o: TextParserOptions) -> Seq<char> {
    if !o.normalize_whitespace {
        text
    } else if !o.preserve_paragraphs && !o.preserve_line_breaks {
        collapse_ws(text)
    } else if o.preserve_paragraphs && !o.preserve_line_breaks {
        join(split_blank(text).map_values(|p: Seq<char>| collapse_ws(p)), seq!['\n', '\n'])
    } else {
        join(lines(text).map_values(|l: Seq<char>| normalized_line(l)), seq!['\n'])
    }
}

/// Processed paragraphs joined into one text, then normalized.
pub open spec fn joined_paragraphs(ps: Seq<Seq<char>>, o: TextParserOptions) -> Seq<char> {
    if ps.len() == 0 {
        Seq::empty()
    } else {
        normalized(join(ps, paragraph_sep(o)), o)
    }
}

/// The text that parsing `text` with options `o` extracts.
pub open spec fn parsed_text(text: Seq<char>, o: TextParserOptions) -> Seq<char> {
    if trim(text).len() == 0 {
        Seq::empty()
    } else {
        joined_paragraphs(
            paragraphs(text).map_values(|p: Seq<Seq<char>>| processed_paragraph(p, o)),
            o,
        )
    }
}

/// The views of a sequence of paragraphs.
pub open spec fn paragraph_views(v: Seq<Vec<String>>) -> Seq<Seq<Seq<char>>> {
    v.map_values(|p: Vec<String>| string_views(p@))
}

/// Parses plain text with the default options; text never yields links.
pub fn parse(text: &str) -> (r: ParseResult)
    ensures
        r.content@ == parsed_text(text@, default_options()),
        r.links@.len() == 0,
{
    parse_with_options(text, &TextParserOptions::default())
}

/// Parses plain text with the given options; text never yields links.
pub fn parse_with_options(text: &str, options: &TextParserOptions) -> (r: ParseResult)
    ensures
        r.content@ == parsed_text(text@, *options),
        r.links@.len() == 0,
{
    let cs = chars_of(text);
    if is_blank(&cs) {
        return ParseResult::content_only(String::new());
    }
    let paras = split_into_paragraphs(text);
    let processed = process_paragraphs(paras.as_slice(), options);
    let result = join_paragraphs(processed.as_slice(), options);
    assert(string_views(processed@) =~= paragraphs(text@).map_values(
        |p: Seq<Seq<char>>| processed_paragraph(p, *options),
    ));
    ParseResult::content_only(result)
}

/// Splits text into paragraphs at blank lines; each line is trimmed and
/// blank lines are dropped.
pub fn split_into_paragraphs(text: &str) -> (r: Vec<Vec<String>>)
    ensures
        paragraph_views(r@) == paragraphs(text@),
{
    let cs = chars_of(text);
    let ls = lines_of(&cs);
    let ghost lv = char_views(ls@);
    let mut done: Vec<Vec<String>> = Vec::new();
    let mut cur: Vec<String> = Vec::new();
    let mut i: usize = 0;
    while i < ls.len()
        invariant
            i <= ls.len(),
            lv == char_views(ls@),
            (paragraph_views(done@), string_views(cur@)) == paragraph_state(
                lv.subrange(0, i as int),
            ),
        decreases ls.len() - i,
    {
        assert(lv.subrange(0, i + 1).drop_last() =~= lv.subrange(0, i as int));
        let t = trim_chars(&ls[i]);
        if t.len() == 0 {
            if cur.len() > 0 {
                done.push(cur);
                cur = Vec::new();
                assert(paragraph_views(done@) =~= paragraph_state(lv.subrange(0, i + 1)).0);
                assert(string_views(cur@) =~= paragraph_state(lv.subrange(0, i + 1)).1);
            }
        } else {
            let line = string_of(&t);
            cur.push(line);
            assert(string_views(cur@) =~= paragraph_state(lv.subrange(0, i + 1)).1);
        }
        i += 1;
    }
    assert(lv.subrange(0, ls.len() as int) =~= lv);
    if cur.len() > 0 {
        done.push(cur);
        assert(paragraph_views(done@) =~= paragraphs(text@));
    }
    done
}

/// Processes each paragraph according to the options.
pub fn process_paragraphs(paragraphs: &[Vec<String>], options: &TextParserOptions) -> (r: Vec<
    String,
>)
    ensures
        string_views(r@) == paragraph_views(paragraphs@).map_values(
            |p: Seq<Seq<char>>| processed_paragraph(p, *options),
        ),
{
    let mut out: Vec<String> = Vec::new();
    let mut i: usize = 0;
    while i < paragraphs.len()
        invariant
            i <= paragraphs.len(),
            string_views(out@) == paragraph_views(paragraphs@.subrange(0, i as int)).map_values(
                |p: Seq<Seq<char>>| processed_paragraph(p, *options),
            ),
        decreases paragraphs.len() - i,
    {
        let p = process_paragraph(paragraphs[i].as_slice(), options);
        proof {
            let f = |q: Seq<Seq<char>>| processed_paragraph(q, *options);
            let g = |q: Vec<String>| string_views(q@);
            let pre = paragraphs@.subrange(0, i as int);
            assert(paragraphs@.subrange(0, i + 1) =~= pre.push(paragraphs@[i as int]));
            lemma_string_views_push(out@, p);
            lemma_map_push(pre, paragraphs@[i as int], g);
            lemma_map_push(pre.map_values(g), g(paragraphs@[i as int]), f);
        }
        out.push(p);
        i += 1;
    }
    assert(paragraphs@.subrange(0, paragraphs.len() as int) =~= paragraphs@);
    out
}

/// The characters of each string.
fn chars_of_all(v: &[String]) -> (r: Vec<Vec<char>>)
    ensures
        char_views(r@) == string_views(v@),
{
    let mut out: Vec<Vec<char>> = Vec::new();
    let mut i: usize = 0;
    while i < v.len()
        invariant
            i <= v.len(),
            char_views(out@) == string_views(v@.subrange(0, i as int)),
        decreases v.len() - i,
    {
        let cs = chars_of(v[i].as_str());
        proof {
            lemma_char_views_push(out@, cs);
            lemma_string_views_push(v@.subrange(0, i as int), v@[i as int]);
            assert(v@.subrange(0, i + 1) =~= v@.subrange(0, i as int).push(v@[i as int]));
        }
        out.push(cs);
        i += 1;
    }
    assert(v@.subrange(0, v.len() as int) =~= v@);
    out
}

/// Joins the lines of one paragraph: with newlines where line breaks are
/// preserved, else with spaces.
pub fn process_paragraph(paragraph: &[String], options: &TextParserOptions) -> (r: String)
    ensures
        r@ == processed_paragraph(string_views(paragraph@), *options),
{
    let parts = chars_of_all(paragraph);
    let mut sep: Vec<char> = Vec::new();
    if options.preserve_line_breaks {
        sep.push('\n');
    } else {
        sep.push(' ');
    }
    assert(sep@ =~= line_sep(*options));
    let joined = join_chars(&parts, &sep);
    string_of(&joined)
}

/// Joins processed paragraphs into one text, then normalizes its whitespace.
pub fn join_paragraphs(paragraphs: &[String], options: &TextParserOptions) -> (r: String)
    ensures
        r@ == joined_paragraphs(string_views(paragraphs@), *options),
{
    if paragraphs.len() == 0 {
        return String::new();
    }
    let parts = chars_of_all(paragraphs);
    let mut sep: Vec<char> = Vec::new();
    if options.preserve_paragraphs {
        sep.push('\n');
        sep.push('\n');
    } else {
        sep.push(' ');
    }
    assert(sep@ =~= paragraph_sep(*options));
    let joined = join_chars(&parts, &sep);
    let result = normalize_chars(&joined, options);
    string_of(&result)
}

/// Normalizes whitespace in the text as the options ask.
pub fn normalize_whitespace(text: &str, options: &TextParserOptions) -> (r: String)
    ensures
        r@ == normalized(text@, *options),
{
    let cs = chars_of(text);
    let result = normalize_chars(&cs, options);
    string_of(&result)
}

fn normalize_chars(text: &Vec<char>, options: &TextParserOptions) -> (r: Vec<char>)
    ensures
        r@ == normalized(text@, *options),
{
    if !options.normalize_whitespace {
        return text.clone();
    }
    if !options.preserve_paragraphs && !options.preserve_line_breaks {
        return collapse_chars(text);
    }
    if options.preserve_paragraphs && !options.preserve_line_breaks {
        let pieces = split_blank_chars(text);
        let mut done: Vec<Vec<char>> = Vec::new();
        let mut i: usize = 0;
        while i < pieces.len()
            invariant
                i <= pieces.len(),
                char_views(done@) == char_views(pieces@.subrange(0, i as int)).map_values(
                    |p: Seq<char>| collapse_ws(p),
                ),
            decreases pieces.len() - i,
        {
            let c = collapse_chars(&pieces[i]);
            proof {
                let f = |p: Seq<char>| collapse_ws(p);
                let pre = pieces@.subrange(0, i as int);
                assert(pieces@.subrange(0, i + 1) =~= pre.push(pieces@[i as int]));
                lemma_char_views_push(done@, c);
                lemma_char_views_push(pre, pieces@[i as int]);
                lemma_map_push(char_views(pre), pieces@[i as int]@, f);
            }
            done.push(c);
            i += 1;
        }
        assert(pieces@.subrange(0, pieces.len() as int) =~= pieces@);
        let mut sep: Vec<char> = Vec::new();
        sep.push('\n');
        sep.push('\n');
        assert(sep@ =~= seq!['\n', '\n']);
        return join_chars(&done, &sep);
    }
    let ls = lines_of(text);
    let mut done: Vec<Vec<char>> = Vec::new();
    let mut i: usize = 0;
    while i < ls.len()
        invariant
            i <= ls.len(),
            char_views(done@) == char_views(ls@.subrange(0, i as int)).map_values(
                |l: Seq<char>| normalized_line(l),
            ),
        decreases ls.len() - i,
    {
        let l = if is_blank(&ls[i]) {
            ls[i].clone()
        } else {
            collapse_chars(&ls[i])
        };
        proof {
            let f = |l: Seq<char>| normalized_line(l);
            let pre = ls@.subrange(0, i as int);
            assert(ls@.subrange(0, i + 1) =~= pre.push(ls@[i as int]));
            lemma_char_views_push(done@, l);
            lemma_char_views_push(pre, ls@[i as int]);
            lemma_map_push(char_views(pre), ls@[i as int]@, f);
        }
        done.push(l);
        i += 1;
    }
    assert(ls@.subrange(0, ls.len() as int) =~= ls@);
    let mut sep: Vec<char> = Vec::new();
    sep.push('\n');
    assert(sep@ =~= seq!['\n']);
    join_chars(&done, &sep)
}

/// Collapses each run of whitespace into one space and drops it at both ends.
pub fn normalize_whitespace_in_segment(segment: &str) -> (r: String)
    ensures
        r@ == collapse_ws(segment@),
{
    let cs = chars_of(segment);
    let result = collapse_chars(&cs);
    string_of(&result)
}

/// A trimmed, non-blank line: it ends in a character other than whitespace
/// and holds no newline.
pub open spec fn kept_line(t: Seq<char>) -> bool {
    t.len() > 0 && !is_ws(t.last()) && no_newline(t)
}

/// A paragraph of at least one kept line.
pub open spec fn kept_paragraph(p: Seq<Seq<char>>) -> bool {
    p.len() > 0 && forall|i: int| 0 <= i < p.len() ==> kept_line(#[trigger] p[i])
}

proof fn lemma_trim_kept(l: Seq<char>)
    requires
        no_newline(l),
        trim(l).len() > 0,
    ensures
        kept_line(trim(l)),
{
    lemma_trim_start_no_newline(l);
    lemma_trim_end_shape(trim_start(l));
}

proof fn lemma_paragraph_state_kept(ls: Seq<Seq<char>>)
    requires
        forall|i: int| 0 <= i < ls.len() ==> no_newline(#[trigger] ls[i]),
    ensures
        forall|i: int|
            0 <= i < paragraph_state(ls).0.len() ==> kept_paragraph(
                #[trigger] paragraph_state(ls).0[i],
            ),
        forall|i: int|
            0 <= i < paragraph_state(ls).1.len() ==> kept_line(#[trigger] paragraph_state(ls).1[i]),
    decreases ls.len(),
{
    if ls.len() > 0 {
        let front = ls.drop_last();
        assert forall|i: int| 0 <= i < front.len() implies no_newline(#[trigger] front[i]) by {
            assert(front[i] == ls[i]);
        }
        lemma_paragraph_state_kept(front);
        let prev = paragraph_state(front);
        let t = trim(ls.last());
        assert(no_newline(ls[ls.len() - 1]));
        if t.len() > 0 {
            lemma_trim_kept(ls.last());
            let cur = prev.1.push(t);
            assert forall|i: int| 0 <= i < cur.len() implies kept_line(#[trigger] cur[i]) by {
                if i < prev.1.len() {
                    assert(cur[i] == prev.1[i]);
                }
            }
        } else if prev.1.len() > 0 {
            let done = prev.0.push(prev.1);
            assert forall|i: int| 0 <= i < done.len() implies kept_paragraph(#[trigger] done[i]) by {
                if i < prev.0.len() {
                    assert(done[i] == prev.0[i]);
                }
            }
        }
    }
}

proof fn lemma_paragraphs_kept(text: Seq<char>)
    ensures
        forall|i: int| 0 <= i < paragraphs(text).len() ==> kept_paragraph(#[trigger] paragraphs(text)[i]),
{
    lemma_lines_no_newline(text);
    lemma_paragraph_state_kept(lines(text));
    let st = paragraph_state(lines(text));
    let ps = paragraphs(text);
    assert forall|i: int| 0 <= i < ps.len() implies kept_paragraph(#[trigger] ps[i]) by {
        if i < st.0.len() {
            assert(ps[i] == st.0[i]);
        } else {
            assert(ps[i] == st.1);
        }
    }
}

proof fn lemma_join_kept(p: Seq<Seq<char>>)
    requires
        kept_paragraph(p),
    ensures
        kept_line(join(p, seq![' '])),
    decreases p.len(),
{
    assert(kept_line(p[p.len() - 1]));
    if p.len() > 1 {
        let front = p.drop_last();
        assert forall|i: int| 0 <= i < front.len() implies kept_line(#[trigger] front[i]) by {
            assert(front[i] == p[i]);
        }
        lemma_join_kept(front);
        let a = join(front, seq![' ']);
        let b = p.last();
        let j = a + seq![' '] + b;
        assert(join(p, seq![' ']) == j);
        assert forall|k: int| 0 <= k < j.len() implies j[k] != '\n' by {
            if k < a.len() {
                assert(j[k] == a[k]);
            } else if k == a.len() {
                assert(j[k] == ' ');
            } else {
                assert(j[k] == b[k - a.len() - 1]);
            }
        }
        assert(j.last() == b.last());
    }
}

proof fn lemma_no_paragraph_all_blank(ls: Seq<Seq<char>>)
    requires
        paragraph_state(ls).0.len() == 0,
        paragraph_state(ls).1.len() == 0,
    ensures
        forall|i: int| 0 <= i < ls.len() ==> trim(#[trigger] ls[i]).len() == 0,
    decreases ls.len(),
{
    if ls.len() > 0 {
        let front = ls.drop_last();
        let prev = paragraph_state(front);
        assert(trim(ls.last()).len() == 0);
        assert(prev.1.len() == 0);
        lemma_no_paragraph_all_blank(front);
        assert forall|i: int| 0 <= i < ls.len() implies trim(#[trigger] ls[i]).len() == 0 by {
            if i < front.len() {
                assert(ls[i] == front[i]);
            }
        }
    }
}

/// A text with a character other than whitespace has a paragraph.
pub proof fn lemma_text_has_paragraph(text: Seq<char>)
    requires
        trim(text).len() > 0,
    ensures
        paragraphs(text).len() > 0,
{
    let ls = lines(text);
    if paragraphs(text).len() == 0 {
        lemma_no_paragraph_all_blank(ls);
        assert forall|i: int| 0 <= i < ls.len() implies all_ws(#[trigger] ls[i]) by {
            lemma_trim_empty_all_ws(ls[i]);
        }
        lemma_lines_all_ws(text);
        lemma_trim_empty_all_ws(text);
    }
}

/// With paragraphs kept apart and lines joined, the text that parsing
/// extracts holds one piece per paragraph between its blank-line
/// separators: each run of blank lines became exactly one blank line, and no
/// paragraph was lost, merged or left empty; nowhere do three newlines
/// stand in a row.
pub proof fn lemma_paragraph_mode_shape(text: Seq<char>, o: TextParserOptions)
    requires
        o.preserve_paragraphs,
        !o.preserve_line_breaks,
        o.normalize_whitespace,
        trim(text).len() > 0,
    ensures
        !has_triple_newline(parsed_text(text, o)),
        split_blank(parsed_text(text, o)).len() == paragraphs(text).len(),
        forall|i: int|
            0 <= i < split_blank(parsed_text(text, o)).len() ==> #[trigger] split_blank(
                parsed_text(text, o),
            )[i].len() > 0 && no_newline(split_blank(parsed_text(text, o))[i]),
{
    let ps = paragraphs(text);
    lemma_text_has_paragraph(text);
    lemma_paragraphs_kept(text);
    let joined = ps.map_values(|p: Seq<Seq<char>>| processed_paragraph(p, o));
    assert forall|i: int| 0 <= i < joined.len() implies kept_line(#[trigger] joined[i]) by {
        assert(kept_paragraph(ps[i]));
        lemma_join_kept(ps[i]);
        assert(line_sep(o) == seq![' ']);
    }
    assert forall|i: int| 0 <= i < joined.len() implies no_newline(#[trigger] joined[i]) by {
        assert(kept_line(joined[i]));
    }
    assert(paragraph_sep(o) == seq!['\n', '\n']);
    lemma_split_blank_join(joined);
    let pieces = joined.map_values(|p: Seq<char>| collapse_ws(p));
    assert forall|i: int| 0 <= i < pieces.len() implies no_newline(#[trigger] pieces[i]) by {
        lemma_collapse_no_newline(joined[i]);
    }
    assert forall|i: int| 0 <= i < pieces.len() implies (#[trigger] pieces[i]).len() > 0 by {
        assert(kept_line(joined[i]));
        lemma_collapse_nonempty(joined[i]);
    }
    assert(parsed_text(text, o) == join(pieces, seq!['\n', '\n']));
    lemma_split_blank_join(pieces);
    lemma_join_no_triple_newline(pieces);
}

} // verus!
