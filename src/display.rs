use vstd::prelude::*;
use vstd::string::*;
use vstd::utf8::*;

use crate::loc::{chars_between, fits, sub_str, Loc};
use crate::reporter::{Message, Reporter};
use crate::utf8_facts::{lemma_after_newline_is_boundary, lemma_newline_is_boundary, NEWLINE};

verus! {

broadcast use vstd::utf8::encode_utf8_valid_utf8;

/// An index over one source text: its name, the text, and the byte offset
/// of each newline in ascending order.
pub struct SourceInfo<'a> {
    name: Option<&'a str>,
    text: &'a str,
    newlines: Vec<usize>,
}

/// How highlighted columns are shown: with an escape-styled span inline
/// (`Terminal`) or with a line of carets underneath (`String`).
#[derive(Clone, Copy, PartialEq, Eq, Structural, Debug)]
pub enum DisplayOptions {
    Terminal,
    String,
}

/// The number of newline bytes among the first `n` bytes.
pub open spec fn count_newlines(bytes: Seq<u8>, n: int) -> nat
    decreases n,
{
    if n <= 0 {
        0
    } else {
        count_newlines(bytes, n - 1) + if bytes[n - 1] == NEWLINE {
            1nat
        } else {
            0nat
        }
    }
}

/// `nl` lists the offsets of the newline bytes of `bytes`, in ascending
/// order: the `k`-th entry is a newline with `k` newlines before it, and
/// there are as many entries as newlines.
pub open spec fn newline_index(bytes: Seq<u8>, nl: Seq<usize>) -> bool {
    &&& bytes.len() < usize::MAX
    &&& nl.len() == count_newlines(bytes, bytes.len() as int)
    &&& forall|k: int|
        0 <= k < nl.len() ==> {
            &&& #[trigger] nl[k] < bytes.len()
            &&& bytes[nl[k] as int] == NEWLINE
            &&& count_newlines(bytes, nl[k] as int) == k
        }
}

/// `n` copies of `c`.
pub open spec fn repeat(c: char, n: nat) -> Seq<char> {
    Seq::new(n, |i: int| c)
}

/// The decimal digits of `n`, most significant first.
pub open spec fn decimal(n: nat) -> Seq<char>
    decreases n,
{
    if n < 10 {
        seq!["0123456789"@[n as int]]
    } else {
        decimal(n / 10).push("0123456789"@[(n % 10) as int])
    }
}

/// The line-number column: the number right-aligned in four columns, then a
/// bar and a space.
pub open spec fn gutter(n: nat) -> Seq<char> {
    let d = decimal(n);
    let pad = if d.len() < 4 {
        repeat(' ', (4 - d.len()) as nat)
    } else {
        Seq::empty()
    };
    pad + d + "| "@
}

/// Text wrapped in the emphasis style: bold, underlined, red.
pub open spec fn painted(s: Seq<char>) -> Seq<char> {
    "\x1B[1;4;31m"@ + s + "\x1B[0m"@
}

/// Appends one character.
/// Relies on `String::push`, which appends `c` to the end of the string.
#[verifier::external_body]
fn push_char(s: &mut String, c: char)
    ensures
        final(s)@ == old(s)@.push(c),
{
    s.push(c);
}

/// Removes the last character, if any.
/// Relies on `String::pop`, which removes and returns the last character,
/// or returns `None` for an empty string.
#[verifier::external_body]
fn pop_char(s: &mut String) -> (r: Option<char>)
    ensures
        old(s)@.len() == 0 ==> r.is_none() && final(s)@ == old(s)@,
        old(s)@.len() > 0 ==> r == Some(old(s)@.last()) && final(s)@ == old(s)@.drop_last(),
{
    s.pop()
}

/// Relies on ansi_term's `Style::paint` with a bold, underlined, red
/// `Style`, shown through its `Display`: the style's escape prefix
/// `ESC[1;4;31m`, the text, then the reset `ESC[0m`.
#[verifier::external_body]
fn paint_emphasis(s: &str) -> (r: String)
    ensures
        r@ == painted(s@),
{
    let style = ansi_term::Style::new().bold().underline().fg(ansi_term::Colour::Red);
    format!("{}", style.paint(s))
}

/// Appends `n` copies of `c`.
fn push_repeated(out: &mut String, c: char, n: usize)
    ensures
        final(out)@ == old(out)@ + repeat(c, n as nat),
{
    let mut i: usize = 0;
    while i < n
        invariant
            i <= n,
            out@ == old(out)@ + repeat(c, i as nat),
        decreases n - i,
    {
        push_char(out, c);
        i += 1;
        assert(out@ =~= old(out)@ + repeat(c, i as nat));
    }
}

/// Appends the decimal digits of `n`.
fn push_decimal(out: &mut String, n: usize)
    ensures
        final(out)@ == old(out)@ + decimal(n as nat),
    decreases n,
{
    let digits = "0123456789";
    proof {
        reveal_strlit("0123456789");
    }
    if n >= 10 {
        push_decimal(out, n / 10);
    }
    let d = digits.get_char(n % 10);
    push_char(out, d);
    assert(out@ =~= old(out)@ + decimal(n as nat));
}

/// The number of decimal digits of `n`.
fn decimal_len(n: usize) -> (r: usize)
    ensures
        r == decimal(n as nat).len(),
        1 <= r <= n as int + 1,
    decreases n,
{
    if n < 10 {
        1
    } else {
        decimal_len(n / 10) + 1
    }
}

/// Appends the line-number column for line number `n`.
fn push_gutter(out: &mut String, n: usize)
    ensures
        final(out)@ == old(out)@ + gutter(n as nat),
{
    let width = decimal_len(n);
    if width < 4 {
        push_repeated(out, ' ', 4 - width);
    }
    push_decimal(out, n);
    out.append("| ");
    assert(out@ =~= old(out)@ + gutter(n as nat));
}

/// Appends a string slice.
fn push_str(out: &mut String, s: &str)
    ensures
        final(out)@ == old(out)@ + s@,
{
    out.append(s);
}


/// A text never has more characters than bytes.
proof fn lemma_chars_le_bytes(chars: Seq<char>)
    ensures
        chars.len() <= encode_utf8(chars).len(),
    decreases chars.len(),
{
    if chars.len() > 0 {
        lemma_chars_le_bytes(chars.drop_first());
    }
}

proof fn lemma_count_monotone(bytes: Seq<u8>, i: int, j: int)
    requires
        0 <= i <= j,
    ensures
        count_newlines(bytes, i) <= count_newlines(bytes, j),
    decreases j - i,
{
    if i < j {
        lemma_count_monotone(bytes, i, j - 1);
    }
}

proof fn lemma_count_le(bytes: Seq<u8>, n: int)
    requires
        0 <= n,
    ensures
        count_newlines(bytes, n) <= n,
    decreases n,
{
    if n > 0 {
        lemma_count_le(bytes, n - 1);
    }
}

/// The newline offsets are strictly ascending.
proof fn lemma_index_sorted(bytes: Seq<u8>, nl: Seq<usize>)
    requires
        newline_index(bytes, nl),
    ensures
        forall|k1: int, k2: int| 0 <= k1 < k2 < nl.len() ==> nl[k1] < nl[k2],
{
    assert forall|k1: int, k2: int| 0 <= k1 < k2 < nl.len() implies nl[k1] < nl[k2] by {
        if nl[k1] >= nl[k2] {
            lemma_count_monotone(bytes, nl[k2] as int, nl[k1] as int);
        }
    }
}

/// The newlines before offset `b` are exactly the first `count_newlines(b)`
/// entries of the index.
proof fn lemma_partition(bytes: Seq<u8>, nl: Seq<usize>, b: int)
    requires
        newline_index(bytes, nl),
        0 <= b <= bytes.len(),
    ensures
        count_newlines(bytes, b) <= nl.len(),
        forall|k: int| 0 <= k < count_newlines(bytes, b) ==> nl[k] < b,
        forall|k: int| count_newlines(bytes, b) <= k < nl.len() ==> nl[k] >= b,
{
    let r = count_newlines(bytes, b);
    lemma_count_monotone(bytes, b, bytes.len() as int);
    assert forall|k: int| 0 <= k < r implies nl[k] < b by {
        if nl[k] >= b {
            lemma_count_monotone(bytes, b, nl[k] as int);
        }
    }
    assert forall|k: int| r <= k < nl.len() implies nl[k] >= b by {
        if nl[k] < b {
            assert(count_newlines(bytes, nl[k] + 1) == k + 1);
            lemma_count_monotone(bytes, nl[k] + 1, b);
        }
    }
}

impl<'a> SourceInfo<'a> {
    /// The bytes of the text.
    pub closed spec fn bytes(&self) -> Seq<u8> {
        self.text.spec_bytes()
    }

    /// The newline offsets that the index holds.
    pub closed spec fn newline_offsets(&self) -> Seq<usize> {
        self.newlines@
    }

    /// The name the text was given, if any.
    pub closed spec fn name_opt(&self) -> Option<Seq<char>> {
        match self.name {
            Some(s) => Some(s@),
            None => None,
        }
    }

    pub open spec fn wf(&self) -> bool {
        newline_index(self.bytes(), self.newline_offsets())
    }

    pub open spec fn len(&self) -> int {
        self.bytes().len() as int
    }

    /// The name shown in locators.
    pub open spec fn display_name(&self) -> Seq<char> {
        match self.name_opt() {
            Some(s) => s,
            None => "<none>"@,
        }
    }

    /// The 0-based line that holds byte offset `b`: the number of newlines
    /// before it.
    pub open spec fn line_of(&self, b: int) -> nat {
        count_newlines(self.bytes(), b)
    }

    /// The first byte of line `n`: one past the previous line's newline,
    /// never beyond the last byte of the text.
    pub open spec fn line_start_of(&self, n: int) -> int {
        let nl = self.newline_offsets();
        if n == 0 {
            0
        } else if n > nl.len() {
            self.len() - 1
        } else if nl[n - 1] + 1 <= self.len() - 1 {
            nl[n - 1] + 1
        } else {
            self.len() - 1
        }
    }

    /// The end of line `n`: its newline, or the end of the text for the last
    /// line.
    pub open spec fn line_end_of(&self, n: int) -> int {
        let nl = self.newline_offsets();
        if n < nl.len() {
            nl[n] as int
        } else {
            self.len()
        }
    }

    /// The 0-based column of byte offset `b`: the number of characters
    /// between the start of its line and `b`.
    pub open spec fn column_of(&self, b: int) -> nat {
        chars_between(self.bytes(), self.line_start_of(self.line_of(b) as int), b).len()
    }

    /// The characters between two byte offsets.
    pub open spec fn text_between(&self, lo: int, hi: int) -> Seq<char> {
        chars_between(self.bytes(), lo, hi)
    }

    /// `--> name:line:column`, 1-based, for the start of `loc`.
    pub open spec fn locator(&self, loc: Loc) -> Seq<char> {
        "--> "@ + self.display_name() + ":"@ + decimal(self.line_of(loc.start as int) + 1) + ":"@
            + decimal(self.column_of(loc.start as int) + 1) + "\n"@
    }

    /// The part of line `line` that `loc` covers starts here.
    pub open spec fn highlight_start(&self, line: int, loc: Loc) -> int {
        let s = self.line_start_of(line);
        if s < loc.start {
            loc.start as int
        } else {
            s
        }
    }

    /// The part of line `line` that `loc` covers ends here.
    pub open spec fn highlight_end(&self, line: int, loc: Loc) -> int {
        let e = self.line_end_of(line);
        if e < loc.end {
            e
        } else {
            loc.end as int
        }
    }

    /// The excerpt of one covered line.  Plain: the line, then spaces up to
    /// the highlight and one caret per highlighted byte.  Styled: the line
    /// with the highlighted part painted.
    pub open spec fn line_block(&self, line: int, loc: Loc, opts: DisplayOptions) -> Seq<char> {
        let s = self.line_start_of(line);
        let e = self.line_end_of(line);
        let hs = self.highlight_start(line, loc);
        let he = self.highlight_end(line, loc);
        let g = gutter((line + 1) as nat);
        match opts {
            DisplayOptions::String => g + self.text_between(s, e) + "\n"@ + g + repeat(
                ' ',
                (hs - s) as nat,
            ) + repeat('^', (he - hs) as nat) + "\n"@,
            DisplayOptions::Terminal => g + self.text_between(s, hs) + painted(
                self.text_between(hs, he),
            ) + self.text_between(he, e) + "\n"@,
        }
    }

    /// The excerpts of lines `first .. first + n`.
    pub open spec fn line_blocks(&self, loc: Loc, opts: DisplayOptions, first: int, n: nat) -> Seq<
        char,
    >
        decreases n,
    {
        if n == 0 {
            Seq::empty()
        } else {
            self.line_blocks(loc, opts, first, (n - 1) as nat) + self.line_block(
                first + n - 1,
                loc,
                opts,
            )
        }
    }

    /// The source part of a diagnostic at `loc`: the locator, then one
    /// excerpt per line from the line of its start to the line of its end.
    pub open spec fn excerpt(&self, loc: Loc, opts: DisplayOptions) -> Seq<char> {
        let first = self.line_of(loc.start as int);
        let last = self.line_of(loc.end as int);
        self.locator(loc) + self.line_blocks(loc, opts, first as int, (last - first + 1) as nat)
    }

    /// Whether the span of `m`, if it has one, can be shown against this
    /// text.
    pub open spec fn can_show(&self, m: Message) -> bool {
        match m {
            Message::Error(e) => match e.loc {
                Some(loc) => fits(loc, self.bytes()),
                None => true,
            },
            Message::Info(_) => true,
        }
    }

    /// The text of one message: its header and, for an error with a span,
    /// the excerpt.
    pub open spec fn rendered(&self, m: Message, opts: DisplayOptions) -> Seq<char> {
        header(m) + match m {
            Message::Error(e) => match e.loc {
                Some(loc) => self.excerpt(loc, opts),
                None => Seq::empty(),
            },
            Message::Info(_) => Seq::empty(),
        }
    }

    /// The texts of several messages, one after another.
    pub open spec fn rendered_all(&self, ms: Seq<Message>, opts: DisplayOptions) -> Seq<char>
        decreases ms.len(),
    {
        if ms.len() == 0 {
            Seq::empty()
        } else {
            self.rendered_all(ms.drop_last(), opts) + self.rendered(ms.last(), opts)
        }
    }

    /// Line bounds never leave the text, and both ends start a character.
    proof fn lemma_line_bounds(&self, n: int)
        requires
            self.wf(),
            0 <= n <= self.newline_offsets().len(),
        ensures
            0 <= self.line_start_of(n) <= self.line_end_of(n) <= self.len(),
            is_char_boundary(self.bytes(), self.line_start_of(n)),
            is_char_boundary(self.bytes(), self.line_end_of(n)),
    {
        let bytes = self.bytes();
        let nl = self.newline_offsets();
        lemma_index_sorted(bytes, nl);
        is_char_boundary_start_end_of_seq(bytes);
        if n > 0 {
            let p = nl[n - 1] as int;
            if p + 1 <= self.len() - 1 {
                lemma_after_newline_is_boundary(bytes, p);
            } else {
                lemma_newline_is_boundary(bytes, p);
            }
        }
        if n < nl.len() {
            lemma_newline_is_boundary(bytes, nl[n] as int);
        }
    }

    /// Every offset of the text lies within the bounds of its own line.
    pub proof fn lemma_line_contains(&self, b: int)
        requires
            self.wf(),
            0 <= b <= self.len(),
        ensures
            self.line_start_of(self.line_of(b) as int) <= b <= self.line_end_of(self.line_of(b) as int),
    {
        lemma_partition(self.bytes(), self.newline_offsets(), b);
    }

    /// A span on one line, shown in plain mode, gives the locator, the line,
    /// and beneath it as many spaces as bytes precede the span on its line
    /// and as many carets as the span has bytes, whatever those bytes are.
    pub proof fn lemma_single_line_carets(&self, loc: Loc)
        requires
            self.wf(),
            fits(loc, self.bytes()),
            self.line_of(loc.start as int) == self.line_of(loc.end as int),
        ensures
            ({
                let l = self.line_of(loc.start as int) as int;
                let s = self.line_start_of(l);
                let g = gutter((l + 1) as nat);
                self.excerpt(loc, DisplayOptions::String) == self.locator(loc) + g
                    + self.text_between(s, self.line_end_of(l)) + "\n"@ + g + repeat(
                    ' ',
                    (loc.start - s) as nat,
                ) + repeat('^', (loc.end - loc.start) as nat) + "\n"@
            }),
    {
        let l = self.line_of(loc.start as int) as int;
        self.lemma_highlight(l, loc);
        self.lemma_line_contains(loc.start as int);
        self.lemma_line_contains(loc.end as int);
        assert(self.line_blocks(loc, DisplayOptions::String, l, 0) =~= Seq::<char>::empty());
        assert(self.line_blocks(loc, DisplayOptions::String, l, 1) =~= self.line_block(
            l,
            loc,
            DisplayOptions::String,
        ));
    }

    /// For a line between the lines of a span's ends, the covered part lies
    /// inside the line.
    proof fn lemma_highlight(&self, line: int, loc: Loc)
        requires
            self.wf(),
            fits(loc, self.bytes()),
            self.line_of(loc.start as int) <= line <= self.line_of(loc.end as int),
        ensures
            line <= self.newline_offsets().len() <= self.len(),
            0 <= self.line_start_of(line) <= self.highlight_start(line, loc)
                <= self.highlight_end(line, loc) <= self.line_end_of(line) <= self.len(),
            is_char_boundary(self.bytes(), self.line_start_of(line)),
            is_char_boundary(self.bytes(), self.line_end_of(line)),
            is_char_boundary(self.bytes(), self.highlight_start(line, loc)),
            is_char_boundary(self.bytes(), self.highlight_end(line, loc)),
    {
        let bytes = self.bytes();
        let nl = self.newline_offsets();
        lemma_partition(bytes, nl, loc.start as int);
        lemma_partition(bytes, nl, loc.end as int);
        self.lemma_line_bounds(line);
        lemma_count_le(bytes, self.len());
        if line > 0 {
            assert(nl[line - 1] < loc.end);
        }
        if line < nl.len() {
            assert(nl[line] >= loc.start);
        }
    }
}


impl<'a> SourceInfo<'a> {
    /// Indexes `text` in one pass over its bytes.
    pub fn new(name: Option<&'a str>, text: &'a str) -> (r: Self)
        requires
            text.spec_bytes().len() < usize::MAX,
        ensures
            r.wf(),
            r.bytes() == text.spec_bytes(),
            r.name_opt() == match name {
                Some(s) => Some(s@),
                None => None::<Seq<char>>,
            },
    {
        let bytes = text.as_bytes();
        let n = bytes.len();
        let mut newlines: Vec<usize> = Vec::new();
        let mut i: usize = 0;
        while i < n
            invariant
                n == bytes@.len() == text.spec_bytes().len(),
                bytes@ == text.spec_bytes(),
                i <= n,
                newlines@.len() == count_newlines(bytes@, i as int),
                forall|k: int|
                    0 <= k < newlines@.len() ==> {
                        &&& #[trigger] newlines@[k] < i
                        &&& bytes@[newlines@[k] as int] == NEWLINE
                        &&& count_newlines(bytes@, newlines@[k] as int) == k
                    },
            decreases n - i,
        {
            if bytes[i] == NEWLINE {
                newlines.push(i);
            }
            i += 1;
        }
        Self { name, text, newlines }
    }

    /// The text's name, or `<none>`.
    pub fn name(&self) -> (r: &str)
        ensures
            r@ == self.display_name(),
    {
        match &self.name {
            Some(s) => s,
            None => "<none>",
        }
    }

    /// The line that holds byte offset `bytepos`, by binary search over the
    /// newline offsets.
    fn line_idx(&self, bytepos: usize) -> (r: usize)
        requires
            self.wf(),
            bytepos <= self.len(),
        ensures
            r == self.line_of(bytepos as int),
            r <= self.newline_offsets().len(),
    {
        let ghost bytes = self.bytes();
        let ghost nl = self.newline_offsets();
        proof {
            lemma_index_sorted(bytes, nl);
            lemma_partition(bytes, nl, bytepos as int);
        }
        let mut lo: usize = 0;
        let mut hi: usize = self.newlines.len();
        while lo < hi
            invariant
                self.wf(),
                nl == self.newlines@,
                0 <= lo <= hi <= nl.len(),
                forall|k1: int, k2: int| 0 <= k1 < k2 < nl.len() ==> nl[k1] < nl[k2],
                forall|k: int| 0 <= k < lo ==> nl[k] < bytepos,
                forall|k: int| hi <= k < nl.len() ==> nl[k] >= bytepos,
            decreases hi - lo,
        {
            let mid = lo + (hi - lo) / 2;
            if self.newlines[mid] < bytepos {
                lo = mid + 1;
            } else {
                hi = mid;
            }
        }
        proof {
            let c = count_newlines(bytes, bytepos as int);
            if c < lo {
                assert(nl[c as int] >= bytepos);
            }
            if c > lo {
                assert(nl[lo as int] < bytepos);
            }
        }
        lo
    }

    /// The first byte of line `n`.
    fn line_start(&self, n: usize) -> (r: usize)
        requires
            self.wf(),
            n <= self.newline_offsets().len(),
        ensures
            r == self.line_start_of(n as int),
    {
        if n == 0 {
            0
        } else {
            let last = self.text.len() - 1;
            let after = self.newlines[n - 1] + 1;
            if after <= last {
                after
            } else {
                last
            }
        }
    }

    /// The end of line `n`.
    fn line_end(&self, n: usize) -> (r: usize)
        requires
            self.wf(),
        ensures
            r == self.line_end_of(n as int),
    {
        if n < self.newlines.len() {
            self.newlines[n]
        } else {
            self.text.len()
        }
    }
}


impl<'a> SourceInfo<'a> {
    /// Appends a line and, beneath it, spaces up to the highlight and a caret
    /// per highlighted byte.
    fn show_line_plain(&self, n: usize, s: usize, e: usize, hs: usize, he: usize, w: &mut String)
        requires
            s <= hs <= he <= e <= self.len(),
            is_char_boundary(self.bytes(), s as int),
            is_char_boundary(self.bytes(), e as int),
        ensures
            final(w)@ == old(w)@ + gutter(n as nat) + self.text_between(s as int, e as int) + "\n"@
                + gutter(n as nat) + repeat(' ', (hs - s) as nat) + repeat('^', (he - hs) as nat)
                + "\n"@,
    {
        push_gutter(w, n);
        push_str(w, sub_str(self.text, s, e));
        push_str(w, "\n");
        push_gutter(w, n);
        push_repeated(w, ' ', hs - s);
        push_repeated(w, '^', he - hs);
        push_str(w, "\n");
    }

    /// Appends a line with its highlighted part painted.
    fn show_line_styled(&self, n: usize, s: usize, e: usize, hs: usize, he: usize, w: &mut String)
        requires
            s <= hs <= he <= e <= self.len(),
            is_char_boundary(self.bytes(), s as int),
            is_char_boundary(self.bytes(), e as int),
            is_char_boundary(self.bytes(), hs as int),
            is_char_boundary(self.bytes(), he as int),
        ensures
            final(w)@ == old(w)@ + gutter(n as nat) + self.text_between(s as int, hs as int)
                + painted(self.text_between(hs as int, he as int)) + self.text_between(
                he as int,
                e as int,
            ) + "\n"@,
    {
        push_gutter(w, n);
        push_str(w, sub_str(self.text, s, hs));
        let p = paint_emphasis(sub_str(self.text, hs, he));
        push_str(w, p.as_str());
        push_str(w, sub_str(self.text, he, e));
        push_str(w, "\n");
    }

    /// Appends the excerpt of one line covered by `loc`.
    #[verifier::spinoff_prover]
    #[verifier::rlimit(40)]
    fn show_line(&self, line: usize, loc: Loc, w: &mut String, config: DisplayOptions)
        requires
            self.wf(),
            fits(loc, self.bytes()),
            self.line_of(loc.start as int) <= line <= self.line_of(loc.end as int),
        ensures
            final(w)@ == old(w)@ + self.line_block(line as int, loc, config),
    {
        proof {
            self.lemma_highlight(line as int, loc);
        }
        let s = self.line_start(line);
        let e = self.line_end(line);
        let hs = if s < loc.start {
            loc.start
        } else {
            s
        };
        let he = if e < loc.end {
            e
        } else {
            loc.end
        };
        let ghost block = self.line_block(line as int, loc, config);
        let ghost g = gutter((line + 1) as nat);
        if config == DisplayOptions::String {
            assert(block == g + self.text_between(s as int, e as int) + "\n"@ + g + repeat(
                ' ',
                (hs - s) as nat,
            ) + repeat('^', (he - hs) as nat) + "\n"@);
            self.show_line_plain(line + 1, s, e, hs, he, w);
        } else {
            assert(block == g + self.text_between(s as int, hs as int) + painted(
                self.text_between(hs as int, he as int),
            ) + self.text_between(he as int, e as int) + "\n"@);
            self.show_line_styled(line + 1, s, e, hs, he, w);
        }
    }

    /// Whether `loc` can be shown against this text: it ends inside the text
    /// and both its ends start a character.
    pub fn fits_text(&self, loc: Loc) -> (r: bool)
        requires
            self.wf(),
        ensures
            r == fits(loc, self.bytes()),
    {
        loc.start <= loc.end && loc.end <= self.text.len() && self.text.is_char_boundary(loc.start)
            && self.text.is_char_boundary(loc.end)
    }

    /// Whether the span of `m`, if it has one, can be shown against this
    /// text.
    pub fn can_show_message(&self, m: &Message) -> (r: bool)
        requires
            self.wf(),
        ensures
            r == self.can_show(*m),
    {
        match m {
            Message::Error(e) => match e.loc {
                Some(loc) => self.fits_text(loc),
                None => true,
            },
            Message::Info(_) => true,
        }
    }

    /// Appends `--> name:line:column`.
    fn push_locator(&self, w: &mut String, line: usize, column: usize)
        ensures
            final(w)@ == old(w)@ + "--> "@ + self.display_name() + ":"@ + decimal(line as nat)
                + ":"@ + decimal(column as nat) + "\n"@,
    {
        push_str(w, "--> ");
        push_str(w, self.name());
        push_str(w, ":");
        push_decimal(w, line);
        push_str(w, ":");
        push_decimal(w, column);
        push_str(w, "\n");
        assert(w@ =~= old(w)@ + "--> "@ + self.display_name() + ":"@ + decimal(line as nat) + ":"@
            + decimal(column as nat) + "\n"@);
    }

    /// Appends the locator and the excerpt of every line that `loc` covers.
    #[verifier::spinoff_prover]
    #[verifier::rlimit(40)]
    pub fn show_source(&self, loc: Loc, w: &mut String, config: DisplayOptions)
        requires
            self.wf(),
            fits(loc, self.bytes()),
        ensures
            final(w)@ == old(w)@ + self.excerpt(loc, config),
    {
        let ghost bytes = self.bytes();
        let start_line = self.line_idx(loc.start);
        let end_line = self.line_idx(loc.end);
        proof {
            self.lemma_line_contains(loc.start as int);
            self.lemma_line_bounds(start_line as int);
            lemma_count_monotone(bytes, loc.start as int, loc.end as int);
            lemma_count_le(bytes, self.len());
        }
        let ls = self.line_start(start_line);
        let before = sub_str(self.text, ls, loc.start);
        proof {
            lemma_chars_le_bytes(before@);
        }
        let start_char = before.unicode_len();
        self.push_locator(w, start_line + 1, start_char + 1);
        let mut line = start_line;
        while line <= end_line
            invariant
                self.wf(),
                fits(loc, self.bytes()),
                start_line == self.line_of(loc.start as int),
                end_line == self.line_of(loc.end as int),
                start_line <= end_line <= self.newline_offsets().len(),
                self.newline_offsets().len() <= self.len() < usize::MAX,
                start_line <= line <= end_line + 1,
                w@ == old(w)@ + self.locator(loc) + self.line_blocks(
                    loc,
                    config,
                    start_line as int,
                    (line - start_line) as nat,
                ),
            decreases end_line + 1 - line,
        {
            self.show_line(line, loc, w, config);
            line += 1;
            assert(w@ =~= old(w)@ + self.locator(loc) + self.line_blocks(
                loc,
                config,
                start_line as int,
                (line - start_line) as nat,
            ));
        }
    }

    /// Appends the text of one message.
    pub fn write_fmt(&self, w: &mut String, m: &Message, options: DisplayOptions)
        requires
            self.wf(),
            self.can_show(*m),
        ensures
            final(w)@ == old(w)@ + self.rendered(*m, options),
    {
        write_header(w, m);
        match m {
            Message::Error(e) => {
                if let Some(loc) = e.loc {
                    self.show_source(loc, w, options);
                }
            },
            Message::Info(_) => {},
        }
        assert(w@ =~= old(w)@ + self.rendered(*m, options));
    }

    /// Drains `r` and appends the text of each drained message, in
    /// reporting order.
    pub fn extract_report_to(&self, w: &mut String, r: &mut Reporter, options: DisplayOptions)
        requires
            self.wf(),
            old(r).wf(),
            forall|i: int| 0 <= i < old(r)@.log.len() ==> self.can_show(#[trigger] old(r)@.log[i]),
        ensures
            final(r).wf(),
            final(r)@ == old(r)@.polled(),
            final(w)@ == old(w)@ + self.rendered_all(old(r)@.log, options),
    {
        let ms = r.poll();
        let mut i: usize = 0;
        while i < ms.len()
            invariant
                self.wf(),
                ms@ == old(r)@.log,
                forall|j: int| 0 <= j < ms@.len() ==> self.can_show(#[trigger] ms@[j]),
                i <= ms@.len(),
                w@ == old(w)@ + self.rendered_all(ms@.subrange(0, i as int), options),
            decreases ms@.len() - i,
        {
            self.write_fmt(w, &ms[i], options);
            i += 1;
            assert(ms@.subrange(0, i as int).drop_last() =~= ms@.subrange(0, i - 1));
            assert(w@ =~= old(w)@ + self.rendered_all(ms@.subrange(0, i as int), options));
        }
        assert(ms@.subrange(0, i as int) =~= ms@);
    }

    /// Drains `r` and returns the plain report of its messages, without the
    /// final newline.
    pub fn extract_report_to_string(&self, r: &mut Reporter) -> (out: String)
        requires
            self.wf(),
            old(r).wf(),
            forall|i: int| 0 <= i < old(r)@.log.len() ==> self.can_show(#[trigger] old(r)@.log[i]),
        ensures
            final(r).wf(),
            final(r)@ == old(r)@.polled(),
            out@ == trim_newline(self.rendered_all(old(r)@.log, DisplayOptions::String)),
    {
        let mut out = String::new();
        self.extract_report_to(&mut out, r, DisplayOptions::String);
        let last = pop_char(&mut out);
        match last {
            Some(c) => {
                if c != '\n' {
                    push_char(&mut out, c);
                }
            },
            None => {},
        }
        proof {
            let full = self.rendered_all(old(r)@.log, DisplayOptions::String);
            if full.len() > 0 {
                assert(full.drop_last().push(full.last()) =~= full);
            }
        }
        out
    }
}

/// The first line of a message: `error[CODE]: message` or `info: message`.
pub open spec fn header(m: Message) -> Seq<char> {
    match m {
        Message::Error(e) => "error["@ + e.code.short@ + "]: "@ + e.message@ + "\n"@,
        Message::Info(s) => "info: "@ + s@ + "\n"@,
    }
}

/// Appends the first line of a message.
pub(crate) fn write_header(w: &mut String, m: &Message)
    ensures
        final(w)@ == old(w)@ + header(*m),
{
    match m {
        Message::Error(e) => {
            push_str(w, "error[");
            push_str(w, e.code.short);
            push_str(w, "]: ");
            push_str(w, e.message.as_str());
            push_str(w, "\n");
        },
        Message::Info(s) => {
            push_str(w, "info: ");
            push_str(w, s.as_str());
            push_str(w, "\n");
        },
    }
    assert(w@ =~= old(w)@ + header(*m));
}

/// `s` without its last character when that character is a newline.
pub open spec fn trim_newline(s: Seq<char>) -> Seq<char> {
    if s.len() > 0 && s.last() == '\n' {
        s.drop_last()
    } else {
        s
    }
}

} // verus!
