//! The structure of a skill document: an optional byte-order mark, a front
//! matter block between two delimiter lines, and the body after it.

use crate::text::{
    extend_chars, is_blank, is_blank_chars, is_whitespace, join, join_range, leading_whitespace,
    lemma_leading_prefix, lemma_trailing_stops, lemma_trailing_suffix, lemma_trim_blank, lines,
    same_chars, slice_of, split_lines, starts_with, starts_with_chars, trailing_whitespace, trim,
    trim_chars, trim_end, trim_end_chars, trim_start, views,
};
use vstd::prelude::*;

verus! {

/// The byte-order mark that may precede a document.
pub open spec fn byte_order_mark() -> char {
    '\u{feff}'
}

/// The three dashes that open and close the front matter.
pub open spec fn delimiter() -> Seq<char> {
    seq!['-', '-', '-']
}

/// The line feed that joins lines.
pub open spec fn line_feed() -> Seq<char> {
    seq!['\n']
}

/// `s` without a leading byte-order mark.
pub open spec fn strip_bom(s: Seq<char>) -> Seq<char> {
    if s.len() > 0 && s[0] == byte_order_mark() {
        s.skip(1)
    } else {
        s
    }
}

/// The lines of a document, the byte-order mark set aside.
pub open spec fn document_lines(content: Seq<char>) -> Seq<Seq<char>> {
    lines(strip_bom(content))
}

/// Whether `line` opens the front matter: the delimiter, with nothing but
/// whitespace after it.
pub open spec fn opens(line: Seq<char>) -> bool {
    trim_end(line) == delimiter()
}

/// Whether `line` closes the front matter: the delimiter, with nothing but
/// whitespace around it.
pub open spec fn closes(line: Seq<char>) -> bool {
    trim(line) == delimiter()
}

/// Index of the first closing line at or after `from`, or `ls.len()` if there
/// is none.
pub open spec fn closing_index(ls: Seq<Seq<char>>, from: int) -> int
    decreases ls.len() - from,
{
    if from >= ls.len() {
        ls.len() as int
    } else if closes(ls[from]) {
        from
    } else {
        closing_index(ls, from + 1)
    }
}

/// Whether the document starts with a front matter block that is closed.
pub open spec fn has_frontmatter(content: Seq<char>) -> bool {
    let ls = document_lines(content);
    ls.len() > 0 && opens(ls[0]) && closing_index(ls, 1) < ls.len()
}

/// The lines strictly between the two delimiters, joined by line feeds, or
/// `None` if the first line is no delimiter or the block is never closed.
pub open spec fn frontmatter(content: Seq<char>) -> Option<Seq<char>> {
    let ls = document_lines(content);
    if has_frontmatter(content) {
        Some(join(ls.subrange(1, closing_index(ls, 1)), line_feed()))
    } else {
        None
    }
}

/// The lines after the closing delimiter, joined by line feeds.
pub open spec fn body(content: Seq<char>) -> Seq<char> {
    let ls = document_lines(content);
    join(ls.subrange(closing_index(ls, 1) + 1, ls.len() as int), line_feed())
}

/// What `line` gives for `field`: the text after `field` and a colon,
/// trimmed, if the line starts so and that text is not blank.
pub open spec fn line_value(line: Seq<char>, field: Seq<char>) -> Option<Seq<char>> {
    let prefix = field.push(':');
    if starts_with(line, prefix) && !is_blank(line.skip(prefix.len() as int)) {
        Some(trim(line.skip(prefix.len() as int)))
    } else {
        None
    }
}

/// The value of the first of `ls[from..]` that gives one for `field`.
pub open spec fn value_in_lines(ls: Seq<Seq<char>>, field: Seq<char>, from: int) -> Option<
    Seq<char>,
>
    decreases ls.len() - from,
{
    if from >= ls.len() {
        None
    } else if line_value(ls[from], field) is Some {
        line_value(ls[from], field)
    } else {
        value_in_lines(ls, field, from + 1)
    }
}

/// The value of `field` in a front matter block: that of the first line that
/// gives one. A field whose value is blank counts as absent.
pub open spec fn field_value(block: Seq<char>, field: Seq<char>) -> Option<Seq<char>> {
    value_in_lines(lines(block), field, 0)
}

/// `closing_index` finds the first closing line at or after `from`.
pub proof fn lemma_closing_index(ls: Seq<Seq<char>>, from: int)
    requires
        0 <= from,
    ensures
        from <= ls.len() ==> from <= closing_index(ls, from) <= ls.len(),
        closing_index(ls, from) < ls.len() ==> closes(ls[closing_index(ls, from)]),
        forall|j: int| from <= j < closing_index(ls, from) ==> !closes(#[trigger] ls[j]),
    decreases ls.len() - from,
{
    if from < ls.len() && !closes(ls[from]) {
        lemma_closing_index(ls, from + 1);
    }
}

/// A byte-order mark before a document changes neither its front matter nor
/// its body.
pub proof fn lemma_bom_is_set_aside(content: Seq<char>)
    requires
        content.len() == 0 || content[0] != byte_order_mark(),
    ensures
        frontmatter(seq![byte_order_mark()] + content) == frontmatter(content),
        body(seq![byte_order_mark()] + content) == body(content),
{
    assert((seq![byte_order_mark()] + content).skip(1) =~= content);
}

/// A value that `field_value` gives is never empty and carries no whitespace
/// at either end.
pub proof fn lemma_field_value_trimmed(block: Seq<char>, field: Seq<char>)
    ensures
        field_value(block, field) matches Some(v) ==> v.len() > 0 && !is_whitespace(v[0])
            && !is_whitespace(v.last()),
{
    lemma_value_in_lines_trimmed(lines(block), field, 0);
}

proof fn lemma_value_in_lines_trimmed(ls: Seq<Seq<char>>, field: Seq<char>, from: int)
    requires
        0 <= from,
    ensures
        value_in_lines(ls, field, from) matches Some(v) ==> v.len() > 0 && !is_whitespace(v[0])
            && !is_whitespace(v.last()),
    decreases ls.len() - from,
{
    if from < ls.len() {
        if line_value(ls[from], field) is Some {
            let rest = ls[from].skip(field.push(':').len() as int);
            lemma_trim_blank(rest);
            let t = trim_start(rest);
            lemma_leading_prefix(rest);
            lemma_trailing_suffix(t);
            let v = trim(rest);
            assert(v.len() > 0);
            assert(t[0] == rest[leading_whitespace(rest) as int]);
            lemma_trailing_stops(t, 0);
            assert(v[0] == t[0]);
            assert(v.last() == t[t.len() - trailing_whitespace(t) - 1]);
        } else {
            lemma_value_in_lines_trimmed(ls, field, from + 1);
        }
    }
}

/// The two parts of a document whose front matter is closed.
pub struct Sections {
    pub block: Vec<char>,
    pub body: Vec<char>,
}

fn delimiter_chars() -> (d: Vec<char>)
    ensures
        d@ == delimiter(),
{
    let mut d: Vec<char> = Vec::new();
    d.push('-');
    d.push('-');
    d.push('-');
    assert(d@ =~= delimiter());
    d
}

fn line_feed_chars() -> (d: Vec<char>)
    ensures
        d@ == line_feed(),
{
    let mut d: Vec<char> = Vec::new();
    d.push('\n');
    assert(d@ =~= line_feed());
    d
}

/// The lines of a document, the byte-order mark set aside.
pub fn split_document_lines(content: &Vec<char>) -> (ls: Vec<Vec<char>>)
    ensures
        views(ls@) == document_lines(content@),
{
    if content.len() > 0 && content[0] == '\u{feff}' {
        let rest = slice_of(content, 1, content.len());
        assert(rest@ =~= content@.skip(1));
        split_lines(&rest)
    } else {
        split_lines(content)
    }
}

/// Splits a document into front matter block and body.
pub fn split_document(content: &Vec<char>) -> (r: Option<Sections>)
    ensures
        r is Some <==> has_frontmatter(content@),
        r matches Some(s) ==> Some(s.block@) == frontmatter(content@) && s.body@ == body(
            content@,
        ),
{
    let ls = split_document_lines(content);
    let ghost model = document_lines(content@);
    let dashes = delimiter_chars();
    let sep = line_feed_chars();
    if ls.len() == 0 {
        return None;
    }
    assert(model[0] == ls@[0]@);
    let first = trim_end_chars(&ls[0]);
    if !same_chars(&first, &dashes) {
        return None;
    }
    let mut k: usize = 1;
    while k < ls.len()
        invariant
            1 <= k <= ls.len(),
            model == views(ls@),
            model == document_lines(content@),
            opens(model[0]),
            dashes@ == delimiter(),
            sep@ == line_feed(),
            closing_index(model, 1) == closing_index(model, k as int),
        decreases ls.len() - k,
    {
        assert(model[k as int] == ls@[k as int]@);
        let t = trim_chars(&ls[k]);
        if same_chars(&t, &dashes) {
            let block = join_range(&ls, 1, k, &sep);
            let body = join_range(&ls, k + 1, ls.len(), &sep);
            return Some(Sections { block, body });
        }
        k = k + 1;
    }
    None
}

/// What `line` gives for the field that `prefix` names, `prefix` being the
/// field's name and a colon.
fn value_of_line(line: &Vec<char>, prefix: &Vec<char>) -> (r: Option<Vec<char>>)
    requires
        prefix@.len() > 0,
        prefix@.last() == ':',
    ensures
        r is Some <==> line_value(line@, prefix@.drop_last()) is Some,
        r matches Some(v) ==> Some(v@) == line_value(line@, prefix@.drop_last()),
{
    assert(prefix@.drop_last().push(':') =~= prefix@);
    if !starts_with_chars(line, prefix) {
        return None;
    }
    let rest = slice_of(line, prefix.len(), line.len());
    assert(rest@ =~= line@.skip(prefix@.len() as int));
    if is_blank_chars(&rest) {
        None
    } else {
        Some(trim_chars(&rest))
    }
}

/// The value of `field` in a front matter block.
pub fn find_field(block: &Vec<char>, field: &Vec<char>) -> (r: Option<Vec<char>>)
    ensures
        r is Some <==> field_value(block@, field@) is Some,
        r matches Some(v) ==> Some(v@) == field_value(block@, field@),
{
    let ls = split_lines(block);
    let ghost model = lines(block@);
    let mut prefix: Vec<char> = Vec::new();
    extend_chars(&mut prefix, field);
    prefix.push(':');
    assert(prefix@.drop_last() =~= field@);
    let mut i: usize = 0;
    while i < ls.len()
        invariant
            i <= ls.len(),
            model == views(ls@),
            model == lines(block@),
            prefix@.len() > 0,
            prefix@.last() == ':',
            prefix@.drop_last() == field@,
            value_in_lines(model, field@, 0) == value_in_lines(model, field@, i as int),
        decreases ls.len() - i,
    {
        assert(model[i as int] == ls@[i as int]@);
        let v = value_of_line(&ls[i], &prefix);
        if v.is_some() {
            return v;
        }
        i = i + 1;
    }
    None
}

/// A file as the rules see it: its path and what it holds.
#[derive(Debug, Clone)]
pub struct SourceFile {
    pub path: String,
    pub content: String,
}

/// What a `SourceFile` says.
pub struct SourceFileView {
    pub path: Seq<char>,
    pub content: Seq<char>,
}

impl View for SourceFile {
    type V = SourceFileView;

    open spec fn view(&self) -> SourceFileView {
        SourceFileView { path: self.path@, content: self.content@ }
    }
}

/// The views of a list of files.
pub open spec fn file_views(v: Seq<SourceFile>) -> Seq<SourceFileView> {
    v.map_values(|f: SourceFile| f@)
}

/// The value of `field` in the front matter of a document, `None` if the
/// document has no front matter or the field no value.
pub open spec fn document_field(content: Seq<char>, field: Seq<char>) -> Option<Seq<char>> {
    match frontmatter(content) {
        Some(block) => field_value(block, field),
        None => None,
    }
}

} // verus!
