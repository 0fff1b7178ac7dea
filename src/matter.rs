use vstd::prelude::*;
use crate::engine::Engine;
use crate::entity::ParsedEntity;
use crate::error::Error;
use crate::pod::Pod;
use crate::text::{
    chars_of, ends_with, find_line_end, lemma_line_end, lemma_trim_end_prefix, lemma_trim_end_twice,
    lemma_trim_start_nl,
    line_at, line_end, range_ends_with, range_eq, skip_line_feeds, string_of, trim, trim_end,
    trim_end_at, trim_start_at, trim_start_nl,
};
use core::marker::PhantomData;
use vstd::utf8::encode_utf8;

verus! {

broadcast use vstd::std_specs::vec::group_vec_axioms;

/// Where the scanner stands in the document.
#[derive(PartialEq, Eq, Structural, Clone, Copy)]
pub enum Part {
    /// Inside the metadata block, after its opening line.
    InMatter,
    /// After the metadata block (or with none), looking for the excerpt delimiter.
    MaybeExcerpt,
    /// After the excerpt delimiter: every further line is content.
    InContent,
}

/// The delimiters in force for one scan: opening, closing and excerpt.
pub struct Delims {
    pub open: Seq<char>,
    pub close: Seq<char>,
    pub excerpt: Seq<char>,
}

/// State of the scanner between two lines.
pub struct ScanState {
    pub part: Part,
    /// The lines read since the last reset, each preceded by a line feed.
    pub acc: Seq<char>,
    /// The trimmed text of the metadata block, once it has been closed.
    pub matter: Seq<char>,
    pub excerpt: Option<Seq<char>>,
}

pub open spec fn start_state(part: Part) -> ScanState {
    ScanState { part, acc: Seq::empty(), matter: Seq::empty(), excerpt: None }
}

/// `acc` with one more line.
pub open spec fn with_line(acc: Seq<char>, line: Seq<char>) -> Seq<char> {
    acc + seq!['\n'] + line
}

/// The excerpt that a line `t` (trimmed at its end), which ends with the excerpt delimiter `d`,
/// closes after the lines `acc`: those lines and the text before the delimiter, without leading
/// line feeds and trailing whitespace.
pub open spec fn excerpt_of(acc: Seq<char>, t: Seq<char>, d: Seq<char>) -> Seq<char> {
    trim_end(trim_start_nl(acc + seq!['\n'] + t.subrange(0, t.len() - d.len())))
}

/// One line read in state `st`.
pub open spec fn step(d: Delims, st: ScanState, line: Seq<char>) -> ScanState {
    let t = trim_end(line);
    match st.part {
        Part::InMatter => {
            if t == d.open || t == d.close {
                ScanState {
                    part: Part::MaybeExcerpt,
                    acc: Seq::empty(),
                    matter: trim(st.acc),
                    excerpt: st.excerpt,
                }
            } else {
                ScanState { part: st.part, acc: with_line(st.acc, line), matter: st.matter, excerpt: st.excerpt }
            }
        },
        Part::MaybeExcerpt => {
            if ends_with(t, d.excerpt) {
                ScanState {
                    part: Part::InContent,
                    acc: with_line(st.acc, line),
                    matter: st.matter,
                    excerpt: Some(excerpt_of(st.acc, t, d.excerpt)),
                }
            } else {
                ScanState { part: st.part, acc: with_line(st.acc, line), matter: st.matter, excerpt: st.excerpt }
            }
        },
        Part::InContent => ScanState {
            part: st.part,
            acc: with_line(st.acc, line),
            matter: st.matter,
            excerpt: st.excerpt,
        },
    }
}

/// The state after reading, from state `st`, the lines of `s` that start at `pos` or later.
pub open spec fn run(d: Delims, st: ScanState, s: Seq<char>, pos: int) -> ScanState
    decreases s.len() + 1 - pos,
    via run_decreases
{
    if pos < 0 || pos >= s.len() {
        st
    } else {
        let e = line_end(s, pos);
        run(d, step(d, st, line_at(s, pos, e)), s, e + 1)
    }
}

#[via_fn]
proof fn run_decreases(d: Delims, st: ScanState, s: Seq<char>, pos: int) {
    if 0 <= pos < s.len() {
        lemma_line_end(s, pos);
    }
}

/// Whether the first line of `s` is the opening delimiter (once trimmed at its end) and is
/// followed by a line feed.
pub open spec fn opens_matter(d: Delims, s: Seq<char>) -> bool {
    line_end(s, 0) < s.len() && trim_end(s.subrange(0, line_end(s, 0))) == d.open
}

/// The final state of the scanner on `s`.
pub open spec fn final_state(d: Delims, s: Seq<char>) -> ScanState {
    if opens_matter(d, s) {
        run(d, start_state(Part::InMatter), s, line_end(s, 0) + 1)
    } else {
        run(d, start_state(Part::MaybeExcerpt), s, 0)
    }
}

pub open spec fn utf8_len(s: Seq<char>) -> nat {
    encode_utf8(s).len()
}

/// An input no longer (in UTF-8 bytes) than the opening delimiter is not scanned.
pub open spec fn too_short(d: Delims, s: Seq<char>) -> bool {
    utf8_len(s) <= utf8_len(d.open)
}

/// The content of `s`: the input without the metadata block and its delimiter lines.
pub open spec fn content_of(d: Delims, s: Seq<char>) -> Seq<char> {
    if too_short(d, s) {
        Seq::empty()
    } else {
        trim_start_nl(final_state(d, s).acc)
    }
}

/// The excerpt of `s`, if its delimiter was found.
pub open spec fn excerpt_of_input(d: Delims, s: Seq<char>) -> Option<Seq<char>> {
    if too_short(d, s) {
        None
    } else {
        final_state(d, s).excerpt
    }
}

/// The trimmed text of the metadata block of `s`; empty where there is none.
pub open spec fn matter_of(d: Delims, s: Seq<char>) -> Seq<char> {
    if too_short(d, s) {
        Seq::empty()
    } else {
        final_state(d, s).matter
    }
}

pub open spec fn opt_view(o: Option<String>) -> Option<Seq<char>> {
    match o {
        Some(s) => Some(s@),
        None => None,
    }
}

/// What a scan finds in a document, before the metadata block is handed to an engine.
pub struct Scanned {
    pub content: String,
    pub excerpt: Option<String>,
    pub matter: String,
}

/// The front matter that an engine's result gives: a value other than `Null`; nothing for
/// `Null` (an empty block) or for a failure.
pub fn data_of(parsed: Result<Pod, Error>) -> (d: Option<Pod>)
    ensures
        d == match parsed {
            Ok(Pod::Null) => None,
            Ok(v) => Some(v),
            Err(_) => None,
        },
{
    match parsed {
        Ok(Pod::Null) => None,
        Ok(v) => Some(v),
        Err(_) => None,
    }
}

/// Appends a line feed and the characters `lo..hi` of `src` to `dst`.
fn push_line(dst: &mut Vec<char>, src: &Vec<char>, lo: usize, hi: usize)
    requires
        lo <= hi <= src.len(),
    ensures
        final(dst)@ == with_line(old(dst)@, src@.subrange(lo as int, hi as int)),
{
    dst.push('\n');
    let mut i: usize = lo;
    while i < hi
        invariant
            lo <= i <= hi <= src.len(),
            dst@ == old(dst)@ + seq!['\n'] + src@.subrange(lo as int, i as int),
        decreases hi - i,
    {
        dst.push(src[i]);
        assert(dst@ =~= old(dst)@ + seq!['\n'] + src@.subrange(lo as int, i + 1));
        i = i + 1;
    }
}

/// Holds the delimiters of front matter and scans documents with them; `T` turns the metadata
/// block into a [`Pod`].
pub struct Matter<T: Engine> {
    pub delimiter: String,
    pub close_delimiter: Option<String>,
    pub excerpt_delimiter: Option<String>,
    pub engine: PhantomData<T>,
}

impl<T: Engine> Default for Matter<T> {
    fn default() -> (r: Self)
        ensures
            r.delimiter@ == seq!['-', '-', '-'],
            r.close_delimiter is None,
            r.excerpt_delimiter is None,
    {
        Matter::new()
    }
}

impl<T: Engine> Matter<T> {
    /// The delimiters in force: the closing and the excerpt delimiter default to the opening one.
    pub open spec fn delims(&self) -> Delims {
        Delims {
            open: self.delimiter@,
            close: match self.close_delimiter {
                Some(c) => c@,
                None => self.delimiter@,
            },
            excerpt: match self.excerpt_delimiter {
                Some(x) => x@,
                None => self.delimiter@,
            },
        }
    }

    /// A scanner with `---` as its only delimiter.
    pub fn new() -> (r: Self)
        ensures
            r.delimiter@ == seq!['-', '-', '-'],
            r.close_delimiter is None,
            r.excerpt_delimiter is None,
    {
        let d = "---".to_owned();
        proof {
            reveal_strlit("---");
        }
        Matter { delimiter: d, close_delimiter: None, excerpt_delimiter: None, engine: PhantomData }
    }

    /// Parses `input`: scans it, and hands a non-empty metadata block to the engine `T`.
    ///
    /// Whatever the engine returns, the scan's fields are exact; `data` is `None` when no
    /// non-empty block was found, and otherwise is what [`data_of`] makes of the engine's result.
    pub fn parse(&self, input: &str) -> (r: ParsedEntity)
        ensures
            r.orig@ == input@,
            r.content@ == content_of(self.delims(), input@),
            opt_view(r.excerpt) == excerpt_of_input(self.delims(), input@),
            r.matter@ == matter_of(self.delims(), input@),
            matter_of(self.delims(), input@).len() == 0 ==> r.data is None,
            r.data matches Some(v) ==> !(v is Null),
    {
        let sc = self.scan(input);
        let data = if sc.matter.as_str().is_empty() {
            None
        } else {
            data_of(T::parse(sc.matter.as_str()))
        };
        ParsedEntity {
            data,
            content: sc.content,
            excerpt: sc.excerpt,
            orig: input.to_owned(),
            matter: sc.matter,
        }
    }

    /// Locates the metadata block, the excerpt and the content of `input`.
    pub fn scan(&self, input: &str) -> (r: Scanned)
        ensures
            r.content@ == content_of(self.delims(), input@),
            opt_view(r.excerpt) == excerpt_of_input(self.delims(), input@),
            r.matter@ == matter_of(self.delims(), input@),
    {
        let ghost d = self.delims();
        if input.as_bytes().len() <= self.delimiter.as_str().as_bytes().len() {
            return Scanned { content: String::new(), excerpt: None, matter: String::new() };
        }
        let s = chars_of(input);
        let open = chars_of(self.delimiter.as_str());
        let close = match &self.close_delimiter {
            Some(c) => chars_of(c.as_str()),
            None => chars_of(self.delimiter.as_str()),
        };
        let exd = match &self.excerpt_delimiter {
            Some(x) => chars_of(x.as_str()),
            None => chars_of(self.delimiter.as_str()),
        };
        let first = find_line_end(&s, 0);
        proof {
            lemma_line_end(s@, 0);
        }
        let mut part: Part;
        let mut pos: usize;
        if first < s.len() && range_eq(&s, 0, trim_end_at(&s, 0, first), &open) {
            part = Part::InMatter;
            pos = first + 1;
        } else {
            part = Part::MaybeExcerpt;
            pos = 0;
        }
        let ghost start = start_state(part);
        let ghost start_pos = pos as int;
        assert(final_state(d, s@) == run(d, start, s@, start_pos));
        let mut acc: Vec<char> = Vec::new();
        let mut matter = String::new();
        let mut excerpt: Option<String> = None;
        while pos < s.len()
            invariant
                d == self.delims(),
                open@ == d.open,
                close@ == d.close,
                exd@ == d.excerpt,
                pos <= s.len(),
                run(d, start, s@, start_pos) == run(
                    d,
                    ScanState { part, acc: acc@, matter: matter@, excerpt: opt_view(excerpt) },
                    s@,
                    pos as int,
                ),
            decreases s.len() - pos,
        {
            let ghost st = ScanState { part, acc: acc@, matter: matter@, excerpt: opt_view(excerpt) };
            let e = find_line_end(&s, pos);
            proof {
                lemma_line_end(s@, pos as int);
            }
            let le = if pos < e && e < s.len() && s[e - 1] == '\r' {
                e - 1
            } else {
                e
            };
            let ghost line = line_at(s@, pos as int, e as int);
            assert(line == s@.subrange(pos as int, le as int));
            let te = trim_end_at(&s, pos, le);
            match part {
                Part::InMatter => {
                    if range_eq(&s, pos, te, &open) || range_eq(&s, pos, te, &close) {
                        let me = trim_end_at(&acc, 0, acc.len());
                        let mb = trim_start_at(&acc, 0, me);
                        assert(acc@.subrange(0, acc@.len() as int) =~= acc@);
                        matter = string_of(&acc, mb, me);
                        acc = Vec::new();
                        part = Part::MaybeExcerpt;
                    } else {
                        push_line(&mut acc, &s, pos, le);
                    }
                },
                Part::MaybeExcerpt => {
                    if range_ends_with(&s, pos, te, &exd) {
                        let mut x: Vec<char> = Vec::new();
                        let mut i: usize = 0;
                        while i < acc.len()
                            invariant
                                i <= acc.len(),
                                x@ == acc@.subrange(0, i as int),
                            decreases acc.len() - i,
                        {
                            x.push(acc[i]);
                            assert(x@ =~= acc@.subrange(0, i + 1));
                            i = i + 1;
                        }
                        assert(x@ =~= acc@);
                        let cut = te - exd.len();
                        push_line(&mut x, &s, pos, cut);
                        assert(s@.subrange(pos as int, te as int).subrange(0, cut - pos) =~= s@.subrange(
                            pos as int,
                            cut as int,
                        ));
                        let xb = skip_line_feeds(&x, 0, x.len());
                        assert(x@.subrange(0, x@.len() as int) =~= x@);
                        let xe = trim_end_at(&x, xb, x.len());
                        excerpt = Some(string_of(&x, xb, xe));
                        push_line(&mut acc, &s, pos, le);
                        part = Part::InContent;
                    } else {
                        push_line(&mut acc, &s, pos, le);
                    }
                },
                Part::InContent => {
                    push_line(&mut acc, &s, pos, le);
                },
            }
            assert(ScanState { part, acc: acc@, matter: matter@, excerpt: opt_view(excerpt) } == step(
                d,
                st,
                line,
            ));
            proof {
                let nst = step(d, st, line);
                assert(run(d, st, s@, pos as int) == run(d, nst, s@, e + 1));
                if e >= s.len() {
                    assert(run(d, nst, s@, e + 1) == nst);
                    assert(run(d, nst, s@, s.len() as int) == nst);
                }
            }
            if e < s.len() {
                pos = e + 1;
            } else {
                pos = s.len();
            }
        }
        let k = skip_line_feeds(&acc, 0, acc.len());
        assert(acc@.subrange(0, acc@.len() as int) =~= acc@);
        let content = string_of(&acc, k, acc.len());
        Scanned { content, excerpt, matter }
    }
}

/// An input no longer, in UTF-8 bytes, than the opening delimiter gives empty content, no
/// excerpt and no metadata block, hence no data.
pub proof fn lemma_short_input_is_empty(d: Delims, s: Seq<char>)
    requires
        utf8_len(s) <= utf8_len(d.open),
    ensures
        content_of(d, s).len() == 0,
        excerpt_of_input(d, s) is None,
        matter_of(d, s).len() == 0,
{
}

/// Inside the metadata block, a line that is neither delimiter once trimmed at its end (one
/// that merely holds a delimiter inside a quoted value, say) does not close the block: it is
/// added to the block's text.
pub proof fn lemma_inner_line_stays_in_matter(d: Delims, st: ScanState, line: Seq<char>)
    requires
        st.part == Part::InMatter,
        trim_end(line) != d.open,
        trim_end(line) != d.close,
    ensures
        step(d, st, line).part == Part::InMatter,
        step(d, st, line).acc == with_line(st.acc, line),
        step(d, st, line).matter == st.matter,
{
}

/// No carriage return stands right before a line feed in `s`.
pub open spec fn no_crlf(s: Seq<char>) -> bool {
    forall|j: int| 0 <= j < s.len() - 1 && #[trigger] s[j] == '\r' ==> s[j + 1] != '\n'
}

/// Past the metadata block, reading the lines of `c` from the line start `i` adds a line feed and
/// the rest of `c` to the accumulated text, and leaves the metadata text alone.
proof fn lemma_run_outside_matter(d: Delims, st: ScanState, c: Seq<char>, i: int)
    requires
        st.part != Part::InMatter,
        0 <= i < c.len(),
        i == 0 || c[i - 1] == '\n',
        no_crlf(c),
        c[c.len() - 1] != '\n',
    ensures
        run(d, st, c, i).acc == st.acc + seq!['\n'] + c.subrange(i, c.len() as int),
        run(d, st, c, i).matter == st.matter,
    decreases c.len() - i,
{
    lemma_line_end(c, i);
    let e = line_end(c, i);
    let line = line_at(c, i, e);
    assert(line == c.subrange(i, e));
    let nst = step(d, st, line);
    assert(nst.part != Part::InMatter);
    assert(nst.acc == st.acc + seq!['\n'] + c.subrange(i, e));
    assert(run(d, st, c, i) == run(d, nst, c, e + 1));
    if e < c.len() {
        lemma_run_outside_matter(d, nst, c, e + 1);
        assert(st.acc + seq!['\n'] + c.subrange(i, e) + seq!['\n'] + c.subrange(e + 1, c.len() as int)
            =~= st.acc + seq!['\n'] + c.subrange(i, c.len() as int));
    } else {
        assert(c.subrange(i, e) =~= c.subrange(i, c.len() as int));
    }
}

/// Parsing again the content of a parsed document whose content does not open a metadata block
/// gives no metadata block (so no data) and the same content.
///
/// Left out are contents on which the line split itself changes the text: one that ends with a
/// line feed, one with a carriage return before a line feed, and a non-empty one no longer than
/// the opening delimiter.
pub proof fn lemma_reparse_content(d: Delims, input: Seq<char>)
    requires
        !opens_matter(d, content_of(d, input)),
        no_crlf(content_of(d, input)),
        content_of(d, input).len() > 0 ==> content_of(d, input)[content_of(d, input).len() - 1]
            != '\n',
        content_of(d, input).len() > 0 ==> !too_short(d, content_of(d, input)),
    ensures
        content_of(d, content_of(d, input)) == content_of(d, input),
        matter_of(d, content_of(d, input)).len() == 0,
{
    let c = content_of(d, input);
    if !too_short(d, input) {
        lemma_trim_start_nl(final_state(d, input).acc);
    }
    if c.len() > 0 {
        let st = start_state(Part::MaybeExcerpt);
        lemma_run_outside_matter(d, st, c, 0);
        let acc = run(d, st, c, 0).acc;
        assert(acc =~= seq!['\n'] + c);
        assert(acc.drop_first() =~= c);
        assert(trim_start_nl(acc) == trim_start_nl(c));
    }
}

proof fn lemma_utf8_concat(a: Seq<char>, b: Seq<char>)
    ensures
        encode_utf8(a + b) == encode_utf8(a) + encode_utf8(b),
    decreases a.len(),
{
    if a.len() == 0 {
        assert(a + b =~= b);
        assert(encode_utf8(a) + encode_utf8(b) =~= encode_utf8(b));
    } else {
        lemma_utf8_concat(a.drop_first(), b);
        assert((a + b).drop_first() =~= a.drop_first() + b);
        assert((a + b)[0] == a[0]);
        assert(encode_utf8(a + b) =~= encode_utf8(a) + encode_utf8(b));
    }
}

proof fn lemma_utf8_nonempty(a: Seq<char>)
    requires
        a.len() > 0,
    ensures
        utf8_len(a) > 0,
{
    assert(vstd::utf8::encode_scalar(a[0] as u32).len() > 0) by {
        reveal_with_fuel(vstd::utf8::encode_scalar, 1);
    }
}

/// The lines of `s` that start at `pos` or later, as the scanner reads them.
pub open spec fn lines_from(s: Seq<char>, pos: int) -> Seq<Seq<char>>
    decreases s.len() + 1 - pos,
    via lines_decreases
{
    if pos < 0 || pos >= s.len() {
        Seq::empty()
    } else {
        let e = line_end(s, pos);
        seq![line_at(s, pos, e)] + lines_from(s, e + 1)
    }
}

#[via_fn]
proof fn lines_decreases(s: Seq<char>, pos: int) {
    if 0 <= pos < s.len() {
        lemma_line_end(s, pos);
    }
}

/// The state after reading the lines `ls` from state `st`.
pub open spec fn read_lines(d: Delims, st: ScanState, ls: Seq<Seq<char>>) -> ScanState
    decreases ls.len(),
{
    if ls.len() == 0 {
        st
    } else {
        read_lines(d, step(d, st, ls[0]), ls.drop_first())
    }
}

/// The lines `ls`, each preceded by a line feed.
pub open spec fn joined(ls: Seq<Seq<char>>) -> Seq<char>
    decreases ls.len(),
{
    if ls.len() == 0 {
        Seq::empty()
    } else {
        seq!['\n'] + ls[0] + joined(ls.drop_first())
    }
}

/// A line that, trimmed at its end, is the opening or the closing delimiter.
pub open spec fn is_delimiter_line(d: Delims, line: Seq<char>) -> bool {
    trim_end(line) == d.open || trim_end(line) == d.close
}

proof fn lemma_run_reads_lines(d: Delims, st: ScanState, s: Seq<char>, pos: int)
    ensures
        run(d, st, s, pos) == read_lines(d, st, lines_from(s, pos)),
    decreases s.len() + 1 - pos,
{
    if 0 <= pos < s.len() {
        lemma_line_end(s, pos);
        let e = line_end(s, pos);
        let ls = lines_from(s, pos);
        assert(ls[0] == line_at(s, pos, e));
        assert(ls.drop_first() =~= lines_from(s, e + 1));
        lemma_run_reads_lines(d, step(d, st, line_at(s, pos, e)), s, e + 1);
    } else {
        assert(lines_from(s, pos) =~= Seq::<Seq<char>>::empty());
    }
}

/// Past the metadata block, reading lines adds each of them, after a line feed, to the text, and
/// leaves the metadata text alone.
proof fn lemma_read_outside(d: Delims, st: ScanState, ls: Seq<Seq<char>>)
    requires
        st.part != Part::InMatter,
    ensures
        read_lines(d, st, ls).acc == st.acc + joined(ls),
        read_lines(d, st, ls).matter == st.matter,
    decreases ls.len(),
{
    if ls.len() == 0 {
        assert(st.acc + joined(ls) =~= st.acc);
    } else {
        let n = step(d, st, ls[0]);
        lemma_read_outside(d, n, ls.drop_first());
        assert(n.acc + joined(ls.drop_first()) =~= st.acc + joined(ls));
    }
}

/// Inside the metadata block, reading lines whose first delimiter line is at `k`.
proof fn lemma_read_block(d: Delims, st: ScanState, ls: Seq<Seq<char>>, k: int)
    requires
        st.part == Part::InMatter,
        0 <= k < ls.len(),
        is_delimiter_line(d, ls[k]),
        forall|j: int| 0 <= j < k ==> !is_delimiter_line(d, #[trigger] ls[j]),
    ensures
        read_lines(d, st, ls).matter == trim(st.acc + joined(ls.subrange(0, k))),
        read_lines(d, st, ls).acc == joined(ls.subrange(k + 1, ls.len() as int)),
    decreases k,
{
    let n = step(d, st, ls[0]);
    if k == 0 {
        assert(joined(ls.subrange(0, 0)) =~= Seq::<char>::empty());
        assert(st.acc + joined(ls.subrange(0, 0)) =~= st.acc);
        lemma_read_outside(d, n, ls.drop_first());
        assert(ls.drop_first() =~= ls.subrange(1, ls.len() as int));
        assert(Seq::<char>::empty() + joined(ls.drop_first()) =~= joined(ls.drop_first()));
    } else {
        assert(!is_delimiter_line(d, ls[0]));
        let rest = ls.drop_first();
        assert forall|j: int| 0 <= j < k - 1 implies !is_delimiter_line(d, #[trigger] rest[j]) by {
            assert(rest[j] == ls[j + 1]);
        }
        lemma_read_block(d, n, rest, k - 1);
        let pre = ls.subrange(0, k);
        assert(pre[0] == ls[0]);
        assert(pre.drop_first() =~= rest.subrange(0, k - 1));
        assert(n.acc + joined(rest.subrange(0, k - 1)) =~= st.acc + joined(pre));
        assert(rest.subrange(k, rest.len() as int) =~= ls.subrange(k + 1, ls.len() as int));
    }
}

/// An input whose first line is the opening delimiter is longer than that delimiter.
proof fn lemma_opening_line_not_short(d: Delims, s: Seq<char>)
    requires
        opens_matter(d, s),
    ensures
        !too_short(d, s),
{
    let e = line_end(s, 0);
    lemma_line_end(s, 0);
    let first = s.subrange(0, e);
    lemma_trim_end_prefix(first);
    let m = trim_end(first).len() as int;
    assert(trim_end(first) + first.subrange(m, e) =~= first);
    lemma_utf8_concat(trim_end(first), first.subrange(m, e));
    assert(first + s.subrange(e, s.len() as int) =~= s);
    lemma_utf8_concat(first, s.subrange(e, s.len() as int));
    lemma_utf8_nonempty(s.subrange(e, s.len() as int));
}

/// For an input whose first line is the opening delimiter, with `L` the lines after it and `k`
/// the first of them that is a delimiter line: the metadata text is the lines before `k` joined
/// and trimmed, and the content is the lines after `k` joined, without leading line feeds. The
/// block's lines and its delimiter lines never reach the content.
pub proof fn lemma_block_lines(d: Delims, s: Seq<char>, k: int)
    requires
        opens_matter(d, s),
        0 <= k < lines_from(s, line_end(s, 0) + 1).len(),
        is_delimiter_line(d, lines_from(s, line_end(s, 0) + 1)[k]),
        forall|j: int|
            0 <= j < k ==> !is_delimiter_line(d, #[trigger] lines_from(s, line_end(s, 0) + 1)[j]),
    ensures
        ({
            let ls = lines_from(s, line_end(s, 0) + 1);
            &&& matter_of(d, s) == trim(joined(ls.subrange(0, k)))
            &&& content_of(d, s) == trim_start_nl(joined(ls.subrange(k + 1, ls.len() as int)))
        }),
{
    let ls = lines_from(s, line_end(s, 0) + 1);
    let st = start_state(Part::InMatter);
    lemma_opening_line_not_short(d, s);
    lemma_run_reads_lines(d, st, s, line_end(s, 0) + 1);
    lemma_read_block(d, st, ls, k);
    assert(st.acc + joined(ls.subrange(0, k)) =~= joined(ls.subrange(0, k)));
}

/// An excerpt that does not start with a line feed and does not end in whitespace.
pub open spec fn trimmed_excerpt(o: Option<Seq<char>>) -> bool {
    o matches Some(e) ==> (e.len() == 0 || e[0] != '\n') && trim_end(e) == e
}

proof fn lemma_excerpt_of_trimmed(acc: Seq<char>, t: Seq<char>, d: Seq<char>)
    ensures
        trimmed_excerpt(Some(excerpt_of(acc, t, d))),
{
    let z = trim_start_nl(acc + seq!['\n'] + t.subrange(0, t.len() - d.len()));
    lemma_trim_start_nl(acc + seq!['\n'] + t.subrange(0, t.len() - d.len()));
    lemma_trim_end_prefix(z);
    lemma_trim_end_twice(z);
    if trim_end(z).len() > 0 {
        assert(trim_end(z)[0] == z[0]);
    }
}

proof fn lemma_read_keeps_trimmed(d: Delims, st: ScanState, ls: Seq<Seq<char>>)
    requires
        trimmed_excerpt(st.excerpt),
    ensures
        trimmed_excerpt(read_lines(d, st, ls).excerpt),
    decreases ls.len(),
{
    if ls.len() > 0 {
        let t = trim_end(ls[0]);
        lemma_excerpt_of_trimmed(st.acc, t, d.excerpt);
        lemma_read_keeps_trimmed(d, step(d, st, ls[0]), ls.drop_first());
    }
}

/// The excerpt never starts with a line feed and never ends in whitespace.
pub proof fn lemma_excerpt_trimmed(d: Delims, s: Seq<char>)
    ensures
        trimmed_excerpt(excerpt_of_input(d, s)),
{
    if !too_short(d, s) {
        let part = if opens_matter(d, s) {
            Part::InMatter
        } else {
            Part::MaybeExcerpt
        };
        let pos = if opens_matter(d, s) {
            line_end(s, 0) + 1
        } else {
            0
        };
        lemma_run_reads_lines(d, start_state(part), s, pos);
        lemma_read_keeps_trimmed(d, start_state(part), lines_from(s, pos));
    }
}

} // verus!
