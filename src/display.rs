use vstd::prelude::*;

use crate::diff::{key, Diff, DiffEntry};
use crate::diff_tag::DiffTag;

verus! {

/// Options for rendering a diff as text.
#[derive(Debug, Clone, Copy)]
pub struct DisplayDiffOpts {
    pub color: bool,
}

impl DisplayDiffOpts {
    /// The default options: no colors.
    pub fn new() -> (r: Self)
        ensures
            !r.color,
    {
        DisplayDiffOpts { color: false }
    }

    /// Whether to style each line with ANSI colors.
    pub fn color(self, color: bool) -> (r: Self)
        ensures
            r.color == color,
    {
        DisplayDiffOpts { color }
    }
}

/// The byte that starts a rendered line for a tag.
pub open spec fn marker_byte(tag: DiffTag) -> u8 {
    match tag {
        DiffTag::Equal => 32,
        DiffTag::Delete => 45,
        DiffTag::Replace => 126,
        DiffTag::Insert => 43,
    }
}

/// A relative path's components joined by `/`.
pub open spec fn path_text(p: Seq<Seq<u8>>) -> Seq<u8>
    decreases p.len(),
{
    if p.len() == 0 {
        Seq::empty()
    } else if p.len() == 1 {
        p[0]
    } else {
        path_text(p.drop_last()) + seq![47u8] + p.last()
    }
}

/// The text of an entry's line, if it has one: unchanged entries and changed
/// directories have none; a directory's path ends in `/`.
pub open spec fn entry_line(e: DiffEntry) -> Option<Seq<u8>> {
    if e.tag == DiffTag::Equal || (e.tag == DiffTag::Replace && e.is_dir_spec()) {
        None
    } else {
        Some(
            seq![marker_byte(e.tag), 32u8] + path_text(key(e)) + if e.is_dir_spec() {
                seq![47u8]
            } else {
                Seq::empty()
            },
        )
    }
}

/// A line as owo-colors prints it under `Style::new().red()`.
pub uninterp spec fn red_styled(line: Seq<u8>) -> Seq<u8>;

/// A line as owo-colors prints it under `Style::new().yellow()`.
pub uninterp spec fn yellow_styled(line: Seq<u8>) -> Seq<u8>;

/// A line as owo-colors prints it under `Style::new().green()`.
pub uninterp spec fn green_styled(line: Seq<u8>) -> Seq<u8>;

/// A line in the color of its tag: red for deleted, yellow for changed,
/// green for inserted paths.
pub open spec fn tag_styled(tag: DiffTag, line: Seq<u8>) -> Seq<u8> {
    match tag {
        DiffTag::Equal => line,
        DiffTag::Delete => red_styled(line),
        DiffTag::Replace => yellow_styled(line),
        DiffTag::Insert => green_styled(line),
    }
}

/// What an entry contributes to the rendered diff: its line, styled when
/// `color` is set, and a newline; nothing when it has no line.
pub open spec fn entry_output(e: DiffEntry, color: bool) -> Seq<u8> {
    match entry_line(e) {
        None => Seq::empty(),
        Some(line) => (if color {
            tag_styled(e.tag, line)
        } else {
            line
        }) + seq![10u8],
    }
}

/// The rendered diff: each entry's output, in order.
pub open spec fn rendered(s: Seq<DiffEntry>, color: bool) -> Seq<u8>
    decreases s.len(),
{
    if s.len() == 0 {
        Seq::empty()
    } else {
        rendered(s.drop_last(), color) + entry_output(s.last(), color)
    }
}

/// Relies on owo_colors::Style::red and Style::style: the line as displayed
/// in red, a function of its bytes alone.
#[verifier::external_body]
fn paint_red(line: &Vec<u8>) -> (r: Vec<u8>)
    ensures
        r@ == red_styled(line@),
{
    let text = String::from_utf8_lossy(line.as_slice()).into_owned();
    format!("{}", owo_colors::Style::new().red().style(text)).into_bytes()
}

/// Relies on owo_colors::Style::yellow and Style::style: the line as
/// displayed in yellow, a function of its bytes alone.
#[verifier::external_body]
fn paint_yellow(line: &Vec<u8>) -> (r: Vec<u8>)
    ensures
        r@ == yellow_styled(line@),
{
    let text = String::from_utf8_lossy(line.as_slice()).into_owned();
    format!("{}", owo_colors::Style::new().yellow().style(text)).into_bytes()
}

/// Relies on owo_colors::Style::green and Style::style: the line as
/// displayed in green, a function of its bytes alone.
#[verifier::external_body]
fn paint_green(line: &Vec<u8>) -> (r: Vec<u8>)
    ensures
        r@ == green_styled(line@),
{
    let text = String::from_utf8_lossy(line.as_slice()).into_owned();
    format!("{}", owo_colors::Style::new().green().style(text)).into_bytes()
}

/// Appends `b` to `out`.
fn append_bytes(out: &mut Vec<u8>, b: &Vec<u8>)
    ensures
        final(out)@ == old(out)@ + b@,
{
    let mut i: usize = 0;
    while i < b.len()
        invariant
            i <= b@.len(),
            out@ == old(out)@ + b@.subrange(0, i as int),
        decreases b@.len() - i,
    {
        out.push(b[i]);
        assert(b@.subrange(0, i + 1) == b@.subrange(0, i as int).push(b@[i as int]));
        i = i + 1;
    }
    assert(b@.subrange(0, i as int) == b@);
}

/// Appends a relative path's text to `out`.
fn append_path(out: &mut Vec<u8>, p: &Vec<Vec<u8>>)
    ensures
        final(out)@ == old(out)@ + path_text(p.deep_view()),
{
    let ghost pv = p.deep_view();
    let mut i: usize = 0;
    assert(pv.subrange(0, 0) =~= Seq::<Seq<u8>>::empty());
    assert(out@ =~= old(out)@ + path_text(pv.subrange(0, 0)));
    while i < p.len()
        invariant
            i <= p@.len(),
            pv == p.deep_view(),
            out@ == old(out)@ + path_text(pv.subrange(0, i as int)),
        decreases p@.len() - i,
    {
        let ghost before = out@;
        let ghost t = pv.subrange(0, i + 1);
        assert(t.drop_last() =~= pv.subrange(0, i as int));
        assert(pv[i as int] =~= p@[i as int]@);
        if i > 0 {
            out.push(47u8);
        }
        append_bytes(out, &p[i]);
        if i == 0 {
            assert(path_text(t) == t[0]);
            assert(out@ =~= old(out)@ + path_text(t));
        } else {
            assert(out@ =~= old(out)@ + path_text(t));
        }
        i = i + 1;
    }
    assert(pv.subrange(0, i as int) =~= pv);
}

/// The marker byte of a tag.
fn marker_byte_of(tag: DiffTag) -> (r: u8)
    ensures
        r == marker_byte(tag),
{
    match tag {
        DiffTag::Equal => 32u8,
        DiffTag::Delete => 45u8,
        DiffTag::Replace => 126u8,
        DiffTag::Insert => 43u8,
    }
}

impl DiffEntry {
    /// The text of this entry's line, if it has one.
    pub fn format_line(&self) -> (r: Option<Vec<u8>>)
        ensures
            r matches Some(l) ==> entry_line(*self) == Some(l@),
            r is None <==> entry_line(*self) is None,
    {
        let is_dir = self.is_dir();
        match self.tag {
            DiffTag::Equal => {
                return None;
            },
            DiffTag::Replace => {
                if is_dir {
                    return None;
                }
            },
            _ => {},
        }
        let mut line: Vec<u8> = Vec::new();
        line.push(marker_byte_of(self.tag));
        line.push(32u8);
        append_path(&mut line, &self.relative);
        if is_dir {
            line.push(47u8);
        }
        assert(line@ =~= seq![marker_byte(self.tag), 32u8] + path_text(key(*self)) + if is_dir {
            seq![47u8]
        } else {
            Seq::empty()
        });
        Some(line)
    }

    /// Appends what this entry contributes to a rendered diff.
    fn write_to(&self, out: &mut Vec<u8>, opts: &DisplayDiffOpts)
        ensures
            final(out)@ == old(out)@ + entry_output(*self, opts.color),
    {
        match self.format_line() {
            None => {
                assert(old(out)@ + entry_output(*self, opts.color) =~= old(out)@);
            },
            Some(line) => {
                if opts.color {
                    let styled = match self.tag {
                        DiffTag::Equal => line,
                        DiffTag::Delete => paint_red(&line),
                        DiffTag::Replace => paint_yellow(&line),
                        DiffTag::Insert => paint_green(&line),
                    };
                    append_bytes(out, &styled);
                } else {
                    append_bytes(out, &line);
                }
                out.push(10u8);
                assert(out@ =~= old(out)@ + entry_output(*self, opts.color));
            },
        }
    }
}

impl Diff {
    /// The diff as text: one line for each deleted, inserted or changed
    /// path, in path order; changed directories and unchanged paths are left
    /// out.
    pub fn display(&self, opts: DisplayDiffOpts) -> (r: Vec<u8>)
        ensures
            r@ == rendered(self@, opts.color),
    {
        let mut out: Vec<u8> = Vec::new();
        let mut i: usize = 0;
        while i < self.len()
            invariant
                i <= self@.len(),
                out@ == rendered(self@.subrange(0, i as int), opts.color),
            decreases self@.len() - i,
        {
            let ghost t = self@.subrange(0, i + 1);
            assert(t.drop_last() =~= self@.subrange(0, i as int));
            self.entry(i).write_to(&mut out, &opts);
            i = i + 1;
        }
        assert(self@.subrange(0, i as int) =~= self@);
        out
    }

    /// The diff as text, without colors.
    pub fn to_text(&self) -> (r: Vec<u8>)
        ensures
            r@ == rendered(self@, false),
    {
        self.display(DisplayDiffOpts::new())
    }
}

/// A diff whose entries are all unchanged renders as no text at all.
pub proof fn lemma_all_equal_renders_nothing(s: Seq<DiffEntry>, color: bool)
    requires
        forall|i: int| 0 <= i < s.len() ==> (#[trigger] s[i]).tag == DiffTag::Equal,
    ensures
        rendered(s, color) == Seq::<u8>::empty(),
    decreases s.len(),
{
    if s.len() > 0 {
        assert(s.last().tag == DiffTag::Equal);
        lemma_all_equal_renders_nothing(s.drop_last(), color);
        assert(rendered(s, color) =~= Seq::<u8>::empty());
    }
}

} // verus!
