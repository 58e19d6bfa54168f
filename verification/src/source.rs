//! The source-location model: an immutable source buffer, positions into it
//! (`CodePoint`) and ranges over it (`Span`).

use vstd::prelude::*;

verus! {

/// An immutable source buffer: the full source text plus an identifying name
/// (for instance the originating file name).
///
/// Every buffer carries a numeric identity `id`. Spans and code points may
/// only be compared or combined when they come from the same buffer, and
/// "same buffer" is decided by this identity. The code that creates buffers
/// is responsible for giving distinct inputs distinct identities; combining
/// locations across buffers is a programming error and is ruled out by the
/// preconditions of the operations below.
#[derive(Debug)]
pub struct Source {
    pub id: u64,
    pub name: String,
    pub text: String,
}

/// Mathematical image of a `Source`.
pub ghost struct SpecSource {
    pub id: int,
    pub name: Seq<char>,
    pub text: Seq<char>,
}

impl View for Source {
    type V = SpecSource;

    open spec fn view(&self) -> SpecSource {
        SpecSource { id: self.id as int, name: self.name@, text: self.text@ }
    }
}

impl Source {
    /// Builds a buffer from its identity, name and full text.
    pub fn new(id: u64, name: String, text: String) -> (r: Source)
        ensures
            r@ == (SpecSource { id: id as int, name: name@, text: text@ }),
    {
        Source { id, name, text }
    }

    /// A fresh value describing the same buffer.
    pub fn duplicate(&self) -> (r: Source)
        ensures
            r@ == self@,
    {
        Source { id: self.id, name: self.name.clone(), text: self.text.clone() }
    }
}

/// One position in a source buffer: the buffer and a character offset.
#[derive(Debug)]
pub struct CodePoint(pub Source, pub usize);

/// Mathematical image of a `CodePoint`.
pub ghost struct SpecCodePoint {
    pub source: SpecSource,
    pub offset: int,
}

impl View for CodePoint {
    type V = SpecCodePoint;

    open spec fn view(&self) -> SpecCodePoint {
        SpecCodePoint { source: self.0@, offset: self.1 as int }
    }
}

/// A range `[start, end]` (both ends included) of character offsets over one
/// source buffer. Invariant: `start <= end`.
#[derive(Debug)]
pub struct Span {
    pub source: Source,
    pub start: usize,
    pub end: usize,
}

/// Mathematical image of a `Span`.
pub ghost struct SpecSpan {
    pub source: SpecSource,
    pub start: int,
    pub end: int,
}

impl View for Span {
    type V = SpecSpan;

    open spec fn view(&self) -> SpecSpan {
        SpecSpan { source: self.source@, start: self.start as int, end: self.end as int }
    }
}

/// The span covering two positions of one buffer, whichever order they come in.
pub open spec fn span_of_points(a: SpecCodePoint, b: SpecCodePoint) -> SpecSpan {
    SpecSpan {
        source: a.source,
        start: if a.offset <= b.offset { a.offset } else { b.offset },
        end: if a.offset <= b.offset { b.offset } else { a.offset },
    }
}

/// The union (smallest covering range) of two spans over one buffer.
pub open spec fn span_union(a: SpecSpan, b: SpecSpan) -> SpecSpan {
    SpecSpan {
        source: a.source,
        start: if a.start <= b.start { a.start } else { b.start },
        end: if a.end <= b.end { b.end } else { a.end },
    }
}

/// The span widened to also cover one more position of the same buffer.
pub open spec fn span_extended(s: SpecSpan, p: SpecCodePoint) -> SpecSpan {
    SpecSpan {
        source: s.source,
        start: if s.start <= p.offset { s.start } else { p.offset },
        end: if s.end <= p.offset { p.offset } else { s.end },
    }
}

/// A span is well formed when its ends are ordered.
pub open spec fn span_wf(s: SpecSpan) -> bool {
    s.start <= s.end
}

/// Structural comparison of spans is deliberately trivial: spans carry no
/// identity for equality purposes, so that values containing spans compare
/// by their payload alone. The exact comparison is `Span::equals`.
impl PartialEq for Span {
    fn eq(&self, _other: &Span) -> (r: bool) {
        true
    }
}

impl vstd::std_specs::cmp::PartialEqSpecImpl for Span {
    open spec fn obeys_eq_spec() -> bool {
        true
    }

    open spec fn eq_spec(&self, _other: &Span) -> bool {
        true
    }
}

impl Span {
    /// A fresh value describing the same range of the same buffer.
    pub fn duplicate(&self) -> (r: Span)
        ensures
            r@ == self@,
    {
        Span { source: self.source.duplicate(), start: self.start, end: self.end }
    }

    /// The one-position span at `p`.
    pub fn single(p: CodePoint) -> (r: Span)
        ensures
            r@ == (SpecSpan { source: p@.source, start: p@.offset, end: p@.offset }),
    {
        let CodePoint(source, offset) = p;
        Span { source, start: offset, end: offset }
    }

    /// A placeholder span over an empty, anonymous buffer. Only for quick
    /// prototyping: it points at no real input, so diagnostics built from it
    /// are useless. Prefer the nearest real span.
    pub fn dummy() -> (r: Span)
        ensures
            r@.start == 0,
            r@.end == 0,
            r@.source.id == 0,
            r@.source.text.len() == 0,
    {
        Span {
            source: Source { id: 0, name: String::new(), text: String::new() },
            start: 0,
            end: 0,
        }
    }

    /// Exact comparison for diagnostics: same buffer identity and both ends equal.
    pub fn equals(&self, other: &Span) -> (r: bool)
        ensures
            r == (self@.source.id == other@.source.id && self@.start == other@.start
                && self@.end == other@.end),
    {
        self.source.id == other.source.id && self.start == other.start && self.end == other.end
    }

    /// The span covering both given positions, whichever order they come in.
    /// The positions must address the same buffer.
    pub fn from_points(a: CodePoint, b: CodePoint) -> (r: Span)
        requires
            a@.source == b@.source,
        ensures
            r@ == span_of_points(a@, b@),
            span_wf(r@),
    {
        let CodePoint(source, ao) = a;
        let CodePoint(_, bo) = b;
        Span {
            source,
            start: if ao <= bo { ao } else { bo },
            end: if ao <= bo { bo } else { ao },
        }
    }

    /// Both ends of the span, as positions.
    pub fn bounds(&self) -> (r: (CodePoint, CodePoint))
        ensures
            r.0@ == (SpecCodePoint { source: self@.source, offset: self@.start }),
            r.1@ == (SpecCodePoint { source: self@.source, offset: self@.end }),
    {
        (CodePoint(self.source.duplicate(), self.start), CodePoint(self.source.duplicate(), self.end))
    }

    /// The first covered position.
    pub fn start(&self) -> (r: CodePoint)
        ensures
            r@ == (SpecCodePoint { source: self@.source, offset: self@.start }),
    {
        CodePoint(self.source.duplicate(), self.start)
    }

    /// The last covered position.
    pub fn end(&self) -> (r: CodePoint)
        ensures
            r@ == (SpecCodePoint { source: self@.source, offset: self@.end }),
    {
        CodePoint(self.source.duplicate(), self.end)
    }

    /// Widens the span in place so that it also covers `p`, which must
    /// address the same buffer.
    pub fn extend(&mut self, p: CodePoint)
        requires
            old(self)@.source == p@.source,
        ensures
            final(self)@ == span_extended(old(self)@, p@),
    {
        let CodePoint(_, offset) = p;
        if offset < self.start {
            self.start = offset;
        }
        if offset > self.end {
            self.end = offset;
        }
    }

    /// Replaces the span in place by its union with `s`, which must be a span
    /// over the same buffer.
    pub fn combine(&mut self, s: Span)
        requires
            old(self)@.source == s@.source,
        ensures
            final(self)@ == span_union(old(self)@, s@),
    {
        if s.start < self.start {
            self.start = s.start;
        }
        if s.end > self.end {
            self.end = s.end;
        }
    }

    /// Renders the source lines the span covers, with `line_pad` lines of
    /// context before and after, each line prefixed with its right-aligned
    /// number, and caret lines marking the covered columns.
    pub fn render_span_code(&self, line_pad: usize) -> (r: String)
        requires
            self@.start <= self@.end < self@.source.text.len(),
            self@.source.text.len() + line_pad + 1 <= usize::MAX,
        ensures
            r@ == spec_render_span_code(self@, line_pad as nat),
    {
        let chars = crate::chars::str_chars(self.source.text.as_str());
        let ghost text = chars@;
        proof {
            lemma_line_start_bounds(text, self.start as int);
            lemma_line_start_bounds(text, self.end as int);
            lemma_line_no_bound(text, self.start as int);
            lemma_line_no_bound(text, self.end as int);
        }
        let sl = line_no_exec(&chars, self.start);
        let sp = self.start - line_start_exec(&chars, self.start);
        let el = line_no_exec(&chars, self.end);
        let ep = self.end - line_start_exec(&chars, self.end);
        let lines = split_lines_exec(&chars);
        let ghost lv = lines_view(lines@);
        proof {
            lemma_split_lines_len(text, 0);
            assert forall|t: int|
                0 <= t < lines@.len() implies (#[trigger] lines@[t]@).len() <= text.len() by {
                assert(lines@[t]@ == lines_view(lines@)[t]);
                assert(lines_view(lines@)[t] == split_from(text, 0)[t]);
            }
        }
        let nlines = lines.len();
        let lo = {
            let x = if sl > line_pad {
                sl - line_pad
            } else {
                0
            };
            if x >= 1 {
                x
            } else {
                1
            }
        };
        let hi = if el + line_pad <= nlines {
            el + line_pad
        } else {
            nlines
        };
        let mut out: Vec<char> = Vec::new();
        if lo <= hi {
            let first = row_block_exec(&lines, lo, sl, sp, el, ep);
            append_chars(&mut out, &first);
            proof {
                assert(out@ =~= row_block(lv, lo as int, sl as int, sp as int, el as int, ep as int));
            }
            let mut j = lo;
            while j < hi
                invariant
                    lo <= j <= hi <= lines@.len(),
                    1 <= lo,
                    ep < usize::MAX,
                    lv == lines_view(lines@),
                    forall|t: int| 0 <= t < lines@.len() ==> (#[trigger] lines@[t]@).len() < usize::MAX,
                    out@ + render_rows(lv, j + 1, hi as int, sl as int, sp as int, el as int, ep as int)
                        == row_block(lv, lo as int, sl as int, sp as int, el as int, ep as int)
                        + render_rows(
                        lv,
                        lo + 1,
                        hi as int,
                        sl as int,
                        sp as int,
                        el as int,
                        ep as int,
                    ),
                decreases hi - j,
            {
                let i2 = j + 1;
                let ghost out0 = out@;
                let nl = crate::chars::str_chars("\n");
                append_chars(&mut out, &nl);
                let blk = row_block_exec(&lines, i2, sl, sp, el, ep);
                append_chars(&mut out, &blk);
                proof {
                    assert(out@ =~= out0 + ("\n"@ + blk@));
                    assert(render_rows(lv, i2 as int, hi as int, sl as int, sp as int, el as int, ep as int)
                        == "\n"@ + blk@ + render_rows(
                        lv,
                        i2 + 1,
                        hi as int,
                        sl as int,
                        sp as int,
                        el as int,
                        ep as int,
                    ));
                    assert(out0 + ("\n"@ + blk@) + render_rows(
                        lv,
                        i2 + 1,
                        hi as int,
                        sl as int,
                        sp as int,
                        el as int,
                        ep as int,
                    ) =~= out0 + ("\n"@ + blk@ + render_rows(
                        lv,
                        i2 + 1,
                        hi as int,
                        sl as int,
                        sp as int,
                        el as int,
                        ep as int,
                    )));
                }
                j = i2;
            }
            proof {
                assert(render_rows(lv, j + 1, hi as int, sl as int, sp as int, el as int, ep as int)
                    == Seq::<char>::empty());
                assert(out@ + Seq::<char>::empty() =~= out@);
            }
        }
        crate::chars::string_from_chars(&out)
    }
}

/// The 1-based number of the line that offset `off` lies on.
pub open spec fn line_no(s: Seq<char>, off: int) -> nat
    decreases off,
{
    if off <= 0 {
        1
    } else {
        (line_no(s, off - 1) + (if s[off - 1] == '\n' {
            1nat
        } else {
            0nat
        })) as nat
    }
}

/// The offset at which the line containing `off` begins.
pub open spec fn line_start(s: Seq<char>, off: int) -> int
    decreases off,
{
    if off <= 0 {
        0
    } else if s[off - 1] == '\n' {
        off
    } else {
        line_start(s, off - 1)
    }
}

/// The 0-based column of offset `off` within its line.
pub open spec fn col_of(s: Seq<char>, off: int) -> int {
    off - line_start(s, off)
}

/// How many characters at or after `i` precede the next line break.
pub open spec fn nl_from(s: Seq<char>, i: int) -> nat
    decreases s.len() - i,
{
    if i < 0 || i >= s.len() {
        0
    } else if s[i] == '\n' {
        0
    } else {
        1 + nl_from(s, i + 1)
    }
}

/// The lines of `s` from offset `i` on, split at line breaks (the breaks
/// themselves not included).
pub open spec fn split_from(s: Seq<char>, i: int) -> Seq<Seq<char>>
    decreases s.len() - i,
{
    let k = i + nl_from(s, i);
    if i < 0 || k >= s.len() {
        seq![s.subrange(i, s.len() as int)]
    } else {
        seq![s.subrange(i, k)] + split_from(s, k + 1)
    }
}

/// Subtraction floored at zero.
pub open spec fn sat_sub(a: int, b: int) -> int {
    if a >= b {
        a - b
    } else {
        0
    }
}

/// A line number rendered right-aligned to (at least) three characters.
pub open spec fn num3(i: nat) -> Seq<char> {
    let d = crate::chars::dec_of(i);
    if d.len() >= 3 {
        d
    } else {
        crate::chars::char_repeat(' ', (3 - d.len()) as nat) + d
    }
}

/// One rendered row of a span excerpt: the numbered source line, and under a
/// line that the span touches, a caret line marking the covered columns.
pub open spec fn row_block(lines: Seq<Seq<char>>, i: int, sl: int, sp: int, el: int, ep: int) -> Seq<char> {
    let line = lines[i - 1];
    let base = num3(i as nat) + " | "@ + line;
    if i == sl && i == el {
        base + "\n    | "@ + crate::chars::char_repeat(' ', sp as nat) + crate::chars::char_repeat(
            '^',
            (sat_sub(ep, sp) + 1) as nat,
        )
    } else if i == sl {
        base + "\n    | "@ + crate::chars::char_repeat(' ', sp as nat) + crate::chars::char_repeat(
            '^',
            (sat_sub(line.len() as int, sp) + 1) as nat,
        )
    } else if i == el {
        base + "\n    | "@ + crate::chars::char_repeat('^', (ep + 1) as nat)
            + crate::chars::char_repeat(' ', sat_sub(line.len() as int, ep) as nat)
    } else if sl < i < el {
        base + "\n    | "@ + crate::chars::char_repeat('^', line.len())
    } else {
        base
    }
}

/// The rendered rows `i` to `hi`, each preceded by a line break (they follow
/// the first row).
pub open spec fn render_rows(
    lines: Seq<Seq<char>>,
    i: int,
    hi: int,
    sl: int,
    sp: int,
    el: int,
    ep: int,
) -> Seq<char>
    decreases (if i <= hi { hi + 1 - i } else { 0int }),
{
    if i > hi {
        Seq::empty()
    } else {
        "\n"@ + row_block(lines, i, sl, sp, el, ep) + render_rows(lines, i + 1, hi, sl, sp, el, ep)
    }
}

/// The full source excerpt for a span: the source lines from `pad` lines
/// before the span to `pad` lines after it, each prefixed with its
/// right-aligned line number, with caret lines under the covered columns.
pub open spec fn spec_render_span_code(s: SpecSpan, pad: nat) -> Seq<char> {
    let text = s.source.text;
    let sl = line_no(text, s.start) as int;
    let sp = col_of(text, s.start);
    let el = line_no(text, s.end) as int;
    let ep = col_of(text, s.end);
    let lines = split_from(text, 0);
    let lo = if sat_sub(sl, pad as int) >= 1 {
        sat_sub(sl, pad as int)
    } else {
        1int
    };
    let hi = if el + pad <= lines.len() {
        el + pad
    } else {
        lines.len() as int
    };
    if lo > hi {
        Seq::empty()
    } else {
        row_block(lines, lo, sl, sp, el, ep) + render_rows(lines, lo + 1, hi, sl, sp, el, ep)
    }
}

/// The views of split-out lines.
pub open spec fn lines_view(ss: Seq<String>) -> Seq<Seq<char>> {
    ss.map_values(|s: String| s@)
}

/// A line's start never lies after the offset itself.
proof fn lemma_line_start_bounds(s: Seq<char>, off: int)
    requires
        off >= 0,
    ensures
        0 <= line_start(s, off) <= off,
    decreases off,
{
    if off > 0 && s[off - 1] != '\n' {
        lemma_line_start_bounds(s, off - 1);
    }
}

/// A line number never exceeds the offset plus one.
proof fn lemma_line_no_bound(s: Seq<char>, off: int)
    requires
        off >= 0,
    ensures
        1 <= line_no(s, off) <= off + 1,
    decreases off,
{
    if off > 0 {
        lemma_line_no_bound(s, off - 1);
    }
}

/// No split-out line is longer than the text it was split from.
proof fn lemma_split_lines_len(s: Seq<char>, i: int)
    requires
        0 <= i <= s.len(),
    ensures
        forall|j: int|
            0 <= j < split_from(s, i).len() ==> (#[trigger] split_from(s, i)[j]).len() <= s.len(),
    decreases s.len() - i,
{
    let k = i + nl_from(s, i);
    if k >= s.len() {
        assert(split_from(s, i) == seq![s.subrange(i, s.len() as int)]);
    } else {
        lemma_split_lines_len(s, k + 1);
        assert forall|j: int|
            0 <= j < split_from(s, i).len() implies (#[trigger] split_from(s, i)[j]).len()
            <= s.len() by {
            if j == 0 {
                assert(split_from(s, i)[0] == s.subrange(i, k));
            } else {
                assert(split_from(s, i)[j] == split_from(s, k + 1)[j - 1]);
            }
        }
    }
}

/// Appends the characters of `s` to `out`.
fn append_chars(out: &mut Vec<char>, s: &Vec<char>)
    ensures
        final(out)@ == old(out)@ + s@,
{
    let mut i: usize = 0;
    while i < s.len()
        invariant
            i <= s@.len(),
            out@ == old(out)@ + s@.subrange(0, i as int),
        decreases s@.len() - i,
    {
        out.push(s[i]);
        i = i + 1;
        proof {
            assert(old(out)@ + s@.subrange(0, i as int) =~= (old(out)@ + s@.subrange(
                0,
                i - 1,
            )).push(s@[i - 1]));
        }
    }
    proof {
        assert(s@.subrange(0, s@.len() as int) =~= s@);
    }
}

/// The 1-based line number of offset `off`, executable form.
fn line_no_exec(v: &Vec<char>, off: usize) -> (r: usize)
    requires
        off <= v@.len(),
        v@.len() < usize::MAX,
    ensures
        r == line_no(v@, off as int),
{
    let mut cnt: usize = 1;
    let mut k: usize = 0;
    while k < off
        invariant
            k <= off <= v@.len() < usize::MAX,
            cnt <= k + 1,
            cnt == line_no(v@, k as int),
        decreases off - k,
    {
        if v[k] == '\n' {
            cnt = cnt + 1;
        }
        k = k + 1;
    }
    cnt
}

/// The offset at which the line containing `off` begins, executable form.
fn line_start_exec(v: &Vec<char>, off: usize) -> (r: usize)
    requires
        off <= v@.len(),
    ensures
        r == line_start(v@, off as int),
{
    let mut k: usize = off;
    while k > 0 && v[k - 1] != '\n'
        invariant
            k <= off <= v@.len(),
            line_start(v@, off as int) == line_start(v@, k as int),
        decreases k,
    {
        k = k - 1;
    }
    k
}

/// The lines of a text, executable form.
fn split_lines_exec(v: &Vec<char>) -> (r: Vec<String>)
    ensures
        lines_view(r@) == split_from(v@, 0),
{
    let n = v.len();
    let mut out: Vec<String> = Vec::new();
    let mut ls: usize = 0;
    let mut k: usize = 0;
    let mut cur: Vec<char> = Vec::new();
    while k < n
        invariant
            n == v@.len(),
            ls <= k <= n,
            cur@ == v@.subrange(ls as int, k as int),
            nl_from(v@, ls as int) == (k - ls) + nl_from(v@, k as int),
            split_from(v@, 0) == lines_view(out@) + split_from(v@, ls as int),
        decreases n - k,
    {
        if v[k] == '\n' {
            let ghost out0 = out@;
            out.push(crate::chars::string_from_chars(&cur));
            proof {
                assert(nl_from(v@, k as int) == 0);
                assert(ls + nl_from(v@, ls as int) == k);
                assert(lines_view(out@) =~= lines_view(out0).push(cur@));
                assert(lines_view(out0) + (seq![cur@] + split_from(v@, k + 1)) =~= lines_view(
                    out@,
                ) + split_from(v@, k + 1));
            }
            cur = Vec::new();
            ls = k + 1;
            k = k + 1;
            proof {
                assert(cur@ =~= v@.subrange(ls as int, k as int));
            }
        } else {
            cur.push(v[k]);
            k = k + 1;
            proof {
                assert(cur@ =~= v@.subrange(ls as int, k as int));
            }
        }
    }
    let ghost out0 = out@;
    out.push(crate::chars::string_from_chars(&cur));
    proof {
        assert(nl_from(v@, k as int) == 0);
        assert(ls + nl_from(v@, ls as int) == n);
        assert(split_from(v@, ls as int) == seq![v@.subrange(ls as int, n as int)]);
        assert(lines_view(out@) =~= lines_view(out0).push(cur@));
        assert(lines_view(out0) + seq![cur@] =~= lines_view(out@));
    }
    out
}

/// One rendered excerpt row, executable form.
fn row_block_exec(lines: &Vec<String>, i: usize, sl: usize, sp: usize, el: usize, ep: usize) -> (r:
    Vec<char>)
    requires
        1 <= i <= lines@.len(),
        ep < usize::MAX,
        lines@[i - 1]@.len() < usize::MAX,
    ensures
        r@ == row_block(lines_view(lines@), i as int, sl as int, sp as int, el as int, ep as int),
{
    let mut out: Vec<char> = Vec::new();
    let d = crate::chars::dec_string(i as u128);
    if d.len() >= 3 {
        append_chars(&mut out, &d);
    } else {
        let padv = crate::chars::repeat_char(' ', 3 - d.len());
        append_chars(&mut out, &padv);
        append_chars(&mut out, &d);
        proof {
            assert(out@ =~= crate::chars::char_repeat(' ', (3 - d@.len()) as nat) + d@);
        }
    }
    proof {
        assert(out@ == num3(i as nat));
    }
    let bar = crate::chars::str_chars(" | ");
    append_chars(&mut out, &bar);
    let line = crate::chars::str_chars(lines[i - 1].as_str());
    append_chars(&mut out, &line);
    let ghost base = out@;
    let llen = line.len();
    if i == sl && i == el {
        let head = crate::chars::str_chars("\n    | ");
        append_chars(&mut out, &head);
        let spaces = crate::chars::repeat_char(' ', sp);
        append_chars(&mut out, &spaces);
        let carets = crate::chars::repeat_char('^', (if ep >= sp { ep - sp } else { 0 }) + 1);
        append_chars(&mut out, &carets);
    } else if i == sl {
        let head = crate::chars::str_chars("\n    | ");
        append_chars(&mut out, &head);
        let spaces = crate::chars::repeat_char(' ', sp);
        append_chars(&mut out, &spaces);
        let carets = crate::chars::repeat_char('^', (if llen >= sp { llen - sp } else { 0 }) + 1);
        append_chars(&mut out, &carets);
    } else if i == el {
        let head = crate::chars::str_chars("\n    | ");
        append_chars(&mut out, &head);
        let carets = crate::chars::repeat_char('^', ep + 1);
        append_chars(&mut out, &carets);
        let spaces = crate::chars::repeat_char(' ', if llen >= ep { llen - ep } else { 0 });
        append_chars(&mut out, &spaces);
    } else if sl < i && i < el {
        let head = crate::chars::str_chars("\n    | ");
        append_chars(&mut out, &head);
        let carets = crate::chars::repeat_char('^', llen);
        append_chars(&mut out, &carets);
    }
    out
}

/// The span built from two positions does not depend on the order of the
/// positions, and it covers exactly the range between them: its start is the
/// smaller offset and its end the larger one.
pub proof fn lemma_from_points_order_independent(a: SpecCodePoint, b: SpecCodePoint)
    requires
        a.source == b.source,
    ensures
        span_of_points(a, b) == span_of_points(b, a),
        span_of_points(a, b).start == if a.offset <= b.offset { a.offset } else { b.offset },
        span_of_points(a, b).end == if a.offset <= b.offset { b.offset } else { a.offset },
{
}

/// Self-union is the identity: combining a span with itself leaves it unchanged.
pub proof fn lemma_combine_self_identity(s: SpecSpan)
    ensures
        span_union(s, s) == s,
{
}

} // verus!
