//! Text panes of the status display: a pane keeps lines under a title and
//! renders them at a fixed width; six panes render side by side in a table.
use vstd::prelude::*;
use vstd::utf8::{encode_utf8, is_char_boundary};
use vstd::string::{StrSliceExecFns, StringSliceAdditionalSpecFns};

verus! {

/// What console's `strip_ansi_codes` leaves of a text.
pub uninterp spec fn ansi_stripped(s: Seq<char>) -> Seq<char>;

/// The display width console's `measure_text_width` gives a text.
pub uninterp spec fn text_width(s: Seq<char>) -> usize;

/// What console's `truncate_str` makes of a text for a width and a tail.
pub uninterp spec fn truncated(s: Seq<char>, width: usize, tail: Seq<char>) -> Seq<char>;

/// No escape character and no control sequence introducer in the text.
pub open spec fn free_of_escapes(s: Seq<char>) -> bool {
    forall|i: int| 0 <= i < s.len() ==> #[trigger] s[i] != '\u{1b}' && s[i] != '\u{9b}'
}

/// Every character of the text is printable ASCII, space to tilde.
pub open spec fn printable_ascii(s: Seq<char>) -> bool {
    forall|i: int| 0 <= i < s.len() ==> 0x20 <= #[trigger] (s[i] as u32) && (s[i] as u32) <= 0x7e
}

/// Calls `console::strip_ansi_codes`, which drops the ANSI escape sequences
/// from a text. Claimed: the result is the named one; a text without an
/// escape character or control sequence introducer comes back unchanged
/// (the crate only starts a sequence at one of those two); and every
/// character of the result is one of the text (the result is made of slices
/// of it).
#[verifier::external_body]
fn strip_ansi(s: &str) -> (r: String)
    ensures
        r@ == ansi_stripped(s@),
        free_of_escapes(s@) ==> r@ == s@,
        forall|c: char| #[trigger] r@.contains(c) ==> s@.contains(c),
{
    console::strip_ansi_codes(s).to_string()
}

/// Calls `console::measure_text_width`. Claimed: the result is the named
/// one, and for a text of printable ASCII it is the text's length (the crate
/// returns the byte length at once in that case).
#[verifier::external_body]
fn measure_width(s: &str) -> (w: usize)
    ensures
        w == text_width(s@),
        printable_ascii(s@) ==> w == s@.len(),
{
    console::measure_text_width(s)
}

/// Calls `console::truncate_str`. Claimed: the result is the named one, and
/// a text no wider than `width` (by `measure_text_width`) comes back
/// unchanged (the crate's first test).
#[verifier::external_body]
fn truncate(s: &str, width: usize, tail: &str) -> (r: String)
    ensures
        r@ == truncated(s@, width, tail@),
        text_width(s@) <= width ==> r@ == s@,
{
    console::truncate_str(s, width, tail).to_string()
}

/// `n` spaces.
pub open spec fn spaces(n: nat) -> Seq<char> {
    Seq::new(n, |i: int| ' ')
}

/// The tail put on a line cut short.
pub open spec fn ellipsis() -> Seq<char> {
    seq!['.', '.', '.']
}

/// A line made exactly `width` wide: cut short with a tail of dots when too
/// wide, padded with spaces when too narrow.
pub open spec fn fitted(line: Seq<char>, width: usize) -> Seq<char> {
    let t = truncated(line, width, ellipsis());
    t + spaces(if text_width(t) < width { (width - text_width(t)) as nat } else { 0 })
}

/// The parts with `sep` between each two of them.
pub open spec fn joined(parts: Seq<Seq<char>>, sep: Seq<char>) -> Seq<char>
    decreases parts.len(),
{
    if parts.len() == 0 {
        Seq::empty()
    } else if parts.len() == 1 {
        parts[0]
    } else {
        joined(parts.drop_last(), sep) + sep + parts.last()
    }
}

/// Whether cutting the bytes into pieces of `width`, each piece a char
/// boundary away from the last, works to the end.
pub open spec fn wraps_cleanly(bytes: Seq<u8>, width: usize) -> bool
    decreases bytes.len(),
{
    if bytes.len() == 0 {
        true
    } else if width == 0 {
        false
    } else {
        let cut = if width < bytes.len() { width as int } else { bytes.len() as int };
        is_char_boundary(bytes, cut) && wraps_cleanly(bytes.subrange(cut, bytes.len() as int), width)
    }
}

/// The pieces of `width` bytes (the last one shorter) the bytes are cut into.
pub open spec fn wrapped_pieces(bytes: Seq<u8>, width: usize) -> Seq<Seq<u8>>
    decreases bytes.len(),
{
    if bytes.len() == 0 || width == 0 {
        Seq::empty()
    } else {
        let cut = if width < bytes.len() { width as int } else { bytes.len() as int };
        seq![bytes.subrange(0, cut)] + wrapped_pieces(bytes.subrange(cut, bytes.len() as int), width)
    }
}

/// Whether a message can be wrapped at `width`: the message without its
/// escape sequences cuts cleanly into pieces of `width` bytes.
pub open spec fn wrappable(message: Seq<char>, width: usize) -> bool {
    wraps_cleanly(encode_utf8(ansi_stripped(message)), width)
}

/// `after` is `before` with the message's wrapped pieces written below it,
/// one line per piece.
pub open spec fn extends_wrapped(before: Seq<Seq<char>>, after: Seq<Seq<char>>, message: Seq<char>, width: usize) -> bool {
    &&& after.len() == before.len() + wrapped_pieces(encode_utf8(ansi_stripped(message)), width).len()
    &&& forall|k: int| 0 <= k < before.len() ==> #[trigger] after[k] == before[k]
    &&& forall|k: int| 0 <= k < wrapped_pieces(encode_utf8(ansi_stripped(message)), width).len()
        ==> encode_utf8(#[trigger] after[before.len() + k]) == wrapped_pieces(encode_utf8(ansi_stripped(message)), width)[k]
}

/// The text cut at each newline: the pieces between them (one more piece
/// than there are newlines).
pub open spec fn cut_at_newlines(s: Seq<char>) -> Seq<Seq<char>>
    decreases s.len(),
{
    if s.len() == 0 {
        seq![Seq::<char>::empty()]
    } else {
        let r = cut_at_newlines(s.drop_last());
        if s.last() == '\n' {
            r.push(Seq::<char>::empty())
        } else {
            r.update(r.len() - 1, r.last().push(s.last()))
        }
    }
}

/// Whether `message` can be wrapped at `width`.
pub fn can_wrap(message: &str, width: usize) -> (b: bool)
    ensures
        b == wrappable(message@, width),
{
    let stripped = strip_ansi(message);
    let mut rest: &str = stripped.as_str();
    let ghost full = rest.spec_bytes();
    while rest.as_bytes().len() != 0
        invariant
            wraps_cleanly(full, width) == wraps_cleanly(rest.spec_bytes(), width),
            full == encode_utf8(ansi_stripped(message@)),
        decreases rest.spec_bytes().len(),
    {
        if width == 0 {
            return false;
        }
        let n = rest.as_bytes().len();
        let cut = if width < n { width } else { n };
        if !rest.is_char_boundary(cut) {
            return false;
        }
        let (_, tail) = rest.split_at(cut);
        rest = tail;
    }
    true
}

/// A titled column of lines, `width` wide and `rows` lines tall.
pub struct Pane {
    name: String,
    width: usize,
    rows: usize,
    content: Vec<String>,
}

impl Pane {
    /// The title.
    pub closed spec fn title(&self) -> Seq<char> {
        self.name@
    }

    /// The width lines are fitted to.
    pub closed spec fn line_width(&self) -> usize {
        self.width
    }

    /// The number of lines the pane shows.
    pub closed spec fn row_count(&self) -> usize {
        self.rows
    }

    /// The lines written so far.
    pub closed spec fn lines(&self) -> Seq<Seq<char>> {
        self.content@.map_values(|s: String| s@)
    }

    /// The title, the lines, then empty lines up to the row count.
    pub open spec fn padded_lines(&self) -> Seq<Seq<char>> {
        seq![self.title()] + self.lines() + Seq::new(
            if self.lines().len() < self.row_count() { (self.row_count() - self.lines().len()) as nat } else { 0 },
            |i: int| Seq::<char>::empty(),
        )
    }

    /// The pane as text: each of its padded lines fitted to the width,
    /// joined by newlines.
    pub open spec fn rendered(&self) -> Seq<char> {
        joined(self.padded_lines().map_values(|l: Seq<char>| fitted(l, self.line_width())), seq!['\n'])
    }

    /// An empty pane.
    pub fn new(width: usize, rows: usize, name: String) -> (p: Pane)
        ensures
            p.title() == name@,
            p.line_width() == width,
            p.row_count() == rows,
            p.lines() == Seq::<Seq<char>>::empty(),
    {
        let p = Pane { width, rows, name, content: Vec::new() };
        assert(p.lines() =~= Seq::<Seq<char>>::empty());
        p
    }

    /// Writes a line.
    pub fn add_line(&mut self, message: String)
        ensures
            final(self).lines() == old(self).lines().push(message@),
            final(self).title() == old(self).title(),
            final(self).line_width() == old(self).line_width(),
            final(self).row_count() == old(self).row_count(),
    {
        self.content.push(message);
        assert(self.lines() =~= old(self).lines().push(message@));
    }

    /// Writes the message without its escape sequences, cut into lines of
    /// `width` bytes. The message must cut cleanly: every cut on a char
    /// boundary, and a width above zero for a message that is not empty.
    pub fn add_line_wrapped(&mut self, message: String)
        requires
            wrappable(message@, old(self).line_width()),
        ensures
            extends_wrapped(old(self).lines(), final(self).lines(), message@, old(self).line_width()),
            final(self).title() == old(self).title(),
            final(self).line_width() == old(self).line_width(),
            final(self).row_count() == old(self).row_count(),
    {
        let stripped = strip_ansi(message.as_str());
        let mut rest: &str = stripped.as_str();
        let ghost full = rest.spec_bytes();
        let ghost n0 = old(self).lines().len();
        let ghost all = wrapped_pieces(full, self.width);
        while rest.as_bytes().len() != 0
            invariant
                full == encode_utf8(ansi_stripped(message@)),
                all == wrapped_pieces(full, self.width),
                self.width == old(self).width,
                self.name == old(self).name,
                self.rows == old(self).rows,
                wraps_cleanly(rest.spec_bytes(), self.width),
                n0 == old(self).lines().len(),
                self.lines().len() >= n0,
                all == self.lines().subrange(n0 as int, self.lines().len() as int).map_values(|l: Seq<char>| encode_utf8(l))
                    + wrapped_pieces(rest.spec_bytes(), self.width),
                forall|k: int| 0 <= k < n0 ==> #[trigger] self.lines()[k] == old(self).lines()[k],
            decreases rest.spec_bytes().len(),
        {
            let n = rest.as_bytes().len();
            let cut = if self.width < n { self.width } else { n };
            let (chunk, tail) = rest.split_at(cut);
            let line = chunk.to_owned();
            let ghost before = self.lines();
            self.content.push(line);
            proof {
                assert(self.lines() =~= before.push(line@));
                assert(self.lines().subrange(n0 as int, self.lines().len() as int).map_values(|l: Seq<char>| encode_utf8(l))
                    =~= before.subrange(n0 as int, before.len() as int).map_values(|l: Seq<char>| encode_utf8(l)).push(encode_utf8(line@)));
                assert(encode_utf8(line@) == chunk.spec_bytes());
            }
            rest = tail;
            proof {
                assert(all =~= self.lines().subrange(n0 as int, self.lines().len() as int).map_values(|l: Seq<char>| encode_utf8(l))
                    + wrapped_pieces(rest.spec_bytes(), self.width));
            }
        }
        proof {
            assert(all =~= self.lines().subrange(n0 as int, self.lines().len() as int).map_values(|l: Seq<char>| encode_utf8(l)));
            assert forall|k: int| 0 <= k < all.len() implies encode_utf8(#[trigger] self.lines()[n0 + k]) == all[k] by {
                assert(self.lines().subrange(n0 as int, self.lines().len() as int)[k] == self.lines()[n0 + k]);
            }
        }
    }

    /// Drops every line.
    pub fn clear(&mut self)
        ensures
            final(self).lines() == Seq::<Seq<char>>::empty(),
            final(self).title() == old(self).title(),
            final(self).line_width() == old(self).line_width(),
            final(self).row_count() == old(self).row_count(),
    {
        self.content.clear();
        assert(self.lines() =~= Seq::<Seq<char>>::empty());
    }
}


/// The parts joined with `sep` between each two.
fn join_texts(parts: &Vec<String>, sep: &str) -> (r: String)
    ensures
        r@ == joined(parts@.map_values(|p: String| p@), sep@),
{
    let ghost views = parts@.map_values(|p: String| p@);
    let mut r = String::new();
    if parts.len() == 0 {
        proof { assert(views =~= Seq::<Seq<char>>::empty()); }
        return r;
    }
    r.append(parts[0].as_str());
    proof { assert(views.subrange(0, 1) =~= seq![views[0]]); }
    let mut m: usize = 1;
    while m < parts.len()
        invariant
            1 <= m <= parts@.len(),
            views == parts@.map_values(|p: String| p@),
            r@ == joined(views.subrange(0, m as int), sep@),
        decreases parts@.len() - m,
    {
        r.append(sep);
        r.append(parts[m].as_str());
        proof {
            assert(views.subrange(0, m as int + 1).drop_last() =~= views.subrange(0, m as int));
        }
        m = m + 1;
    }
    proof { assert(views.subrange(0, m as int) =~= views); }
    r
}

/// The text cut at each newline.
fn cut_text(s: &str) -> (r: Vec<String>)
    ensures
        r@.map_values(|p: String| p@) == cut_at_newlines(s@),
{
    let n = s.unicode_len();
    let mut pieces: Vec<String> = Vec::new();
    let mut start: usize = 0;
    let mut i: usize = 0;
    proof { assert(s@.subrange(0, 0) =~= Seq::<char>::empty()); }
    while i < n
        invariant
            n == s@.len(),
            start <= i <= n,
            pieces@.map_values(|p: String| p@).push(s@.subrange(start as int, i as int)) == cut_at_newlines(s@.subrange(0, i as int)),
        decreases n - i,
    {
        let c = s.get_char(i);
        let ghost before = pieces@.map_values(|p: String| p@).push(s@.subrange(start as int, i as int));
        proof {
            assert(s@.subrange(0, i as int + 1).drop_last() =~= s@.subrange(0, i as int));
            assert(s@.subrange(0, i as int + 1).last() == c);
        }
        if c == '\n' {
            let piece = s.substring_char(start, i).to_owned();
            pieces.push(piece);
            start = i + 1;
            proof {
                assert(s@.subrange(start as int, i as int + 1) =~= Seq::<char>::empty());
                assert(pieces@.map_values(|p: String| p@).push(s@.subrange(start as int, i as int + 1)) =~= before.push(Seq::<char>::empty()));
            }
        } else {
            proof {
                assert(s@.subrange(start as int, i as int + 1) =~= s@.subrange(start as int, i as int).push(c));
                assert(pieces@.map_values(|p: String| p@).push(s@.subrange(start as int, i as int + 1)) =~= before.update(before.len() - 1, before.last().push(c)));
            }
        }
        i = i + 1;
    }
    let last = s.substring_char(start, n).to_owned();
    pieces.push(last);
    proof {
        assert(s@.subrange(0, n as int) =~= s@);
        assert(pieces@.map_values(|p: String| p@) =~= cut_at_newlines(s@));
    }
    pieces
}

impl Pane {
    /// A line fitted to the pane's width.
    fn correct_length(&self, message: &str) -> (r: String)
        ensures
            r@ == fitted(message@, self.line_width()),
    {
        let tail = "...";
        proof {
            reveal_strlit("...");
            assert(tail@ =~= ellipsis());
        }
        let mut out = truncate(message, self.width, tail);
        let w = measure_width(out.as_str());
        let too_short_by = if w < self.width { self.width - w } else { 0 };
        let ghost t = out@;
        let mut i: usize = 0;
        while i < too_short_by
            invariant
                i <= too_short_by,
                out@ == t + spaces(i as nat),
            decreases too_short_by - i,
        {
            out.append(" ");
            proof {
                reveal_strlit(" ");
                assert(t + spaces(i as nat + 1) =~= t + spaces(i as nat) + " "@);
            }
            i = i + 1;
        }
        out
    }

    /// Each padded line fitted to the width, in order.
    fn fitted_lines(&self) -> (r: Vec<String>)
        ensures
            r@.map_values(|p: String| p@) == self.padded_lines().map_values(|l: Seq<char>| fitted(l, self.line_width())),
    {
        let ghost want = self.padded_lines().map_values(|l: Seq<char>| fitted(l, self.line_width()));
        let mut r: Vec<String> = Vec::new();
        r.push(self.correct_length(self.name.as_str()));
        let mut k: usize = 0;
        while k < self.content.len()
            invariant
                k <= self.content@.len(),
                r@.len() == k + 1,
                want == self.padded_lines().map_values(|l: Seq<char>| fitted(l, self.line_width())),
                forall|m: int| 0 <= m < r@.len() ==> (#[trigger] r@[m])@ == want[m],
            decreases self.content@.len() - k,
        {
            r.push(self.correct_length(self.content[k].as_str()));
            k = k + 1;
        }
        let pad = if self.content.len() < self.rows { self.rows - self.content.len() } else { 0 };
        let empty = String::new();
        let mut p: usize = 0;
        while p < pad
            invariant
                p <= pad,
                pad == (if self.lines().len() < self.row_count() { (self.row_count() - self.lines().len()) as nat } else { 0 }),
                r@.len() == self.content@.len() + 1 + p,
                want == self.padded_lines().map_values(|l: Seq<char>| fitted(l, self.line_width())),
                empty@ == Seq::<char>::empty(),
                forall|m: int| 0 <= m < r@.len() ==> (#[trigger] r@[m])@ == want[m],
            decreases pad - p,
        {
            r.push(self.correct_length(empty.as_str()));
            p = p + 1;
        }
        proof { assert(r@.map_values(|p: String| p@) =~= want); }
        r
    }

    /// The pane as text: title, lines and padding, each fitted to the
    /// width, one per line.
    pub fn render(&self) -> (r: String)
        ensures
            r@ == self.rendered(),
    {
        let lines = self.fitted_lines();
        let sep = "\n";
        proof {
            reveal_strlit("\n");
            assert(sep@ =~= seq!['\n']);
        }
        join_texts(&lines, sep)
    }
}


/// Six panes side by side, each found by its title without escape
/// sequences, and the separator drawn between them.
pub struct MultiPane {
    joiner: String,
    rows: usize,
    panes: [Pane; 6],
    pane_names: Vec<(String, usize)>,
}

/// The position filed under the last entry named `name`, if any: a later
/// entry under the same name replaces an earlier one.
pub open spec fn named_index(names: Seq<(Seq<char>, usize)>, name: Seq<char>) -> Option<usize>
    decreases names.len(),
{
    if names.len() == 0 {
        None
    } else if names.last().0 == name {
        Some(names.last().1)
    } else {
        named_index(names.drop_last(), name)
    }
}

/// One row of the table: the cells with the separator between each two and
/// at both ends, then a newline.
pub open spec fn row_text(joiner: Seq<char>, cells: Seq<Seq<char>>) -> Seq<char> {
    joiner + joined(cells, joiner) + joiner + seq!['\n']
}

impl MultiPane {
    /// The separator drawn between panes.
    pub closed spec fn joiner_text(&self) -> Seq<char> {
        self.joiner@
    }

    /// The number of rows shown.
    pub closed spec fn row_count(&self) -> usize {
        self.rows
    }

    /// The pane at position `k`.
    pub closed spec fn pane(&self, k: int) -> Pane {
        self.panes@[k]
    }

    /// The names the panes are found by, with their positions.
    pub closed spec fn names(&self) -> Seq<(Seq<char>, usize)> {
        self.pane_names@.map_values(|e: (String, usize)| (e.0@, e.1))
    }

    /// Each name points at a pane.
    pub closed spec fn wf(&self) -> bool {
        forall|k: int| 0 <= k < self.pane_names@.len() ==> (#[trigger] self.pane_names@[k]).1 < 6
    }

    /// Six empty panes with the given titles and widths, each `rows` lines
    /// tall; each is found by its title without escape sequences.
    pub fn new(panes: [(String, usize); 6], rows: usize) -> (m: MultiPane)
        ensures
            m.wf(),
            m.joiner_text() == " | "@,
            m.row_count() == rows,
            forall|k: int| 0 <= k < 6 ==> (#[trigger] m.pane(k)).title() == panes@[k].0@
                && m.pane(k).line_width() == panes@[k].1
                && m.pane(k).row_count() == rows
                && m.pane(k).lines() == Seq::<Seq<char>>::empty(),
            m.names().len() == 6,
            forall|k: int| 0 <= k < 6 ==> #[trigger] m.names()[k] == (ansi_stripped(panes@[k].0@), k as usize),
    {
        let mut names: Vec<(String, usize)> = Vec::new();
        let mut i: usize = 0;
        while i < 6
            invariant
                i <= 6,
                names@.len() == i,
                forall|k: int| 0 <= k < i ==> (#[trigger] names@[k]).0@ == ansi_stripped(panes@[k].0@) && names@[k].1 == k,
            decreases 6 - i,
        {
            names.push((strip_ansi(panes[i].0.as_str()), i));
            i = i + 1;
        }
        let built = [
            Pane::new(panes[0].1, rows, panes[0].0.clone()),
            Pane::new(panes[1].1, rows, panes[1].0.clone()),
            Pane::new(panes[2].1, rows, panes[2].0.clone()),
            Pane::new(panes[3].1, rows, panes[3].0.clone()),
            Pane::new(panes[4].1, rows, panes[4].0.clone()),
            Pane::new(panes[5].1, rows, panes[5].0.clone()),
        ];
        let m = MultiPane { joiner: String::from_str(" | "), rows, panes: built, pane_names: names };
        proof {
            assert forall|k: int| 0 <= k < 6 implies #[trigger] m.names()[k] == (ansi_stripped(panes@[k].0@), k as usize) by {
                assert(m.pane_names@[k].0@ == ansi_stripped(panes@[k].0@));
            }
            assert forall|k: int| 0 <= k < 6 implies (#[trigger] m.pane(k)).title() == panes@[k].0@
                && m.pane(k).line_width() == panes@[k].1
                && m.pane(k).row_count() == rows
                && m.pane(k).lines() == Seq::<Seq<char>>::empty() by {
                if k == 0 {} else if k == 1 {} else if k == 2 {} else if k == 3 {} else if k == 4 {} else {}
            }
        }
        m
    }

    /// The position of the pane named `name`, if any.
    fn pane_index(&self, name: &str) -> (r: Option<usize>)
        requires
            self.wf(),
        ensures
            r == named_index(self.names(), name@),
            r matches Some(k) ==> k < 6,
    {
        let wanted = String::from_str(name);
        let mut i: usize = self.pane_names.len();
        proof { assert(self.names().subrange(0, i as int) =~= self.names()); }
        while i > 0
            invariant
                i <= self.pane_names@.len(),
                wanted@ == name@,
                self.wf(),
                named_index(self.names(), name@) == named_index(self.names().subrange(0, i as int), name@),
                forall|k: int| 0 <= k < i ==> (#[trigger] self.names()[k]).1 < 6,
            decreases i,
        {
            i = i - 1;
            proof {
                assert(self.names().subrange(0, i as int + 1).drop_last() =~= self.names().subrange(0, i as int));
                assert(self.names().subrange(0, i as int + 1).last() == self.names()[i as int]);
            }
            if self.pane_names[i].0 == wanted {
                return Some(self.pane_names[i].1);
            }
        }
        proof { assert(self.names().subrange(0, 0) =~= Seq::<(Seq<char>, usize)>::empty()); }
        None
    }

    /// One row of the table from six cells.
    pub fn pane_join(&self, pane_string: &[String; 6]) -> (r: String)
        ensures
            r@ == row_text(self.joiner_text(), pane_string@.map_values(|p: String| p@)),
    {
        let mut cells: Vec<String> = Vec::new();
        let mut i: usize = 0;
        while i < 6
            invariant
                i <= 6,
                cells@.len() == i,
                forall|k: int| 0 <= k < i ==> (#[trigger] cells@[k])@ == pane_string@[k]@,
            decreases 6 - i,
        {
            cells.push(pane_string[i].clone());
            i = i + 1;
        }
        proof { assert(cells@.map_values(|p: String| p@) =~= pane_string@.map_values(|p: String| p@)); }
        let mut r = self.joiner.clone();
        let middle = join_texts(&cells, self.joiner.as_str());
        r.append(middle.as_str());
        r.append(self.joiner.as_str());
        let nl = "\n";
        proof {
            reveal_strlit("\n");
            assert(nl@ =~= seq!['\n']);
        }
        r.append(nl);
        r
    }

    /// Writes a line into the pane named `pane_name`, cut to the pane's width
    /// when `wrapped`. The pane must exist, and a wrapped line must cut
    /// cleanly at the pane's width.
    pub fn write_line_to_pane(&mut self, pane_name: &str, line: String, wrapped: bool)
        requires
            old(self).wf(),
            named_index(old(self).names(), pane_name@) is Some,
            wrapped ==> wrappable(line@, old(self).pane(named_index(old(self).names(), pane_name@).unwrap() as int).line_width()),
        ensures
            final(self).wf(),
            final(self).names() == old(self).names(),
            final(self).joiner_text() == old(self).joiner_text(),
            final(self).row_count() == old(self).row_count(),
            ({
                let k = named_index(old(self).names(), pane_name@).unwrap() as int;
                &&& forall|m: int| 0 <= m < 6 && m != k ==> #[trigger] final(self).pane(m) == old(self).pane(m)
                &&& final(self).pane(k).title() == old(self).pane(k).title()
                &&& final(self).pane(k).line_width() == old(self).pane(k).line_width()
                &&& final(self).pane(k).row_count() == old(self).pane(k).row_count()
                &&& !wrapped ==> final(self).pane(k).lines() == old(self).pane(k).lines().push(line@)
                &&& wrapped ==> extends_wrapped(old(self).pane(k).lines(), final(self).pane(k).lines(), line@, old(self).pane(k).line_width())
            }),
    {
        let k = match self.pane_index(pane_name) {
            Some(k) => k,
            None => { return; },
        };
        if wrapped {
            self.panes[k].add_line_wrapped(line);
        } else {
            self.panes[k].add_line(line);
        }
    }

    /// Writes the line as `write_line_to_pane` does where the pane exists and
    /// a wrapped line cuts cleanly; elsewhere writes nothing and says so.
    pub fn try_write_line_to_pane(&mut self, pane_name: &str, line: String, wrapped: bool) -> (written: bool)
        requires
            old(self).wf(),
        ensures
            final(self).wf(),
            written == (named_index(old(self).names(), pane_name@) is Some
                && (wrapped ==> wrappable(line@, old(self).pane(named_index(old(self).names(), pane_name@).unwrap() as int).line_width()))),
            !written ==> *final(self) == *old(self),
            written ==> ({
                let k = named_index(old(self).names(), pane_name@).unwrap() as int;
                &&& forall|m: int| 0 <= m < 6 && m != k ==> #[trigger] final(self).pane(m) == old(self).pane(m)
                &&& final(self).pane(k).title() == old(self).pane(k).title()
                &&& final(self).pane(k).line_width() == old(self).pane(k).line_width()
                &&& final(self).pane(k).row_count() == old(self).pane(k).row_count()
                &&& !wrapped ==> final(self).pane(k).lines() == old(self).pane(k).lines().push(line@)
                &&& wrapped ==> extends_wrapped(old(self).pane(k).lines(), final(self).pane(k).lines(), line@, old(self).pane(k).line_width())
            }),
            final(self).names() == old(self).names(),
            final(self).joiner_text() == old(self).joiner_text(),
            final(self).row_count() == old(self).row_count(),
    {
        let k = match self.pane_index(pane_name) {
            Some(k) => k,
            None => { return false; },
        };
        if wrapped && !can_wrap(line.as_str(), self.panes[k].width) {
            return false;
        }
        self.write_line_to_pane(pane_name, line, wrapped);
        true
    }

    /// Empties every pane.
    pub fn clear(&mut self)
        requires
            old(self).wf(),
        ensures
            final(self).wf(),
            final(self).names() == old(self).names(),
            final(self).joiner_text() == old(self).joiner_text(),
            final(self).row_count() == old(self).row_count(),
            forall|k: int| 0 <= k < 6 ==> (#[trigger] final(self).pane(k)).lines() == Seq::<Seq<char>>::empty()
                && final(self).pane(k).title() == old(self).pane(k).title()
                && final(self).pane(k).line_width() == old(self).pane(k).line_width()
                && final(self).pane(k).row_count() == old(self).pane(k).row_count(),
    {
        let mut i: usize = 0;
        while i < 6
            invariant
                i <= 6,
                self.wf(),
                self.pane_names == old(self).pane_names,
                self.joiner == old(self).joiner,
                self.rows == old(self).rows,
                forall|k: int| 0 <= k < 6 ==> (#[trigger] self.panes@[k]).title() == old(self).panes@[k].title()
                    && self.panes@[k].line_width() == old(self).panes@[k].line_width()
                    && self.panes@[k].row_count() == old(self).panes@[k].row_count(),
                forall|k: int| 0 <= k < i ==> (#[trigger] self.panes@[k]).lines() == Seq::<Seq<char>>::empty(),
            decreases 6 - i,
        {
            self.panes[i].clear();
            i = i + 1;
        }
    }
}


/// Row `row` of a pane in the table: its rendered text cut at newlines, or
/// an empty cell below its end.
pub open spec fn table_cell(p: Pane, row: int) -> Seq<char> {
    let c = cut_at_newlines(p.rendered());
    if row < c.len() { c[row] } else { Seq::<char>::empty() }
}

/// The text shown when the table has no rows.
pub open spec fn render_failure() -> Seq<char> {
    "content failed to render: no newlines in output"@
}

impl MultiPane {
    /// Row `row` of the table.
    pub open spec fn table_row(&self, row: int) -> Seq<char> {
        row_text(self.joiner_text(), Seq::new(6, |k: int| table_cell(self.pane(k), row)))
    }

    /// The first `n` rows of the table.
    pub open spec fn table_body(&self, n: nat) -> Seq<char>
        decreases n,
    {
        if n == 0 {
            Seq::empty()
        } else {
            self.table_body((n - 1) as nat) + self.table_row(n - 1)
        }
    }

    /// The first row without its newline.
    pub open spec fn first_line(&self) -> Seq<char> {
        self.table_row(0).drop_last()
    }

    /// The rule drawn above and below the table: a space, a line two
    /// columns narrower than the first row, a space.
    pub open spec fn table_cap(&self) -> Seq<char> {
        seq![' '] + Seq::new((text_width(self.first_line()) - 2) as nat, |i: int| '\u{2500}') + seq![' ', '\n']
    }

    /// Whether the table can be drawn: without rows there is nothing to
    /// measure; with rows the first one must be at least two columns wide.
    pub open spec fn renders(&self) -> bool {
        self.row_count() > 0 ==> text_width(self.first_line()) >= 2
    }

    /// The table as text.
    pub open spec fn rendered_table(&self) -> Seq<char> {
        if self.row_count() == 0 {
            render_failure()
        } else {
            self.table_cap() + self.table_body(self.row_count() as nat) + self.table_cap()
        }
    }

    /// Each pane's rendered text cut at newlines.
    fn pane_cells(&self) -> (r: Vec<Vec<String>>)
        ensures
            r@.len() == 6,
            forall|k: int| 0 <= k < 6 ==> (#[trigger] r@[k])@.map_values(|p: String| p@) == cut_at_newlines(self.pane(k).rendered()),
    {
        let mut r: Vec<Vec<String>> = Vec::new();
        let mut i: usize = 0;
        while i < 6
            invariant
                i <= 6,
                r@.len() == i,
                forall|k: int| 0 <= k < i ==> (#[trigger] r@[k])@.map_values(|p: String| p@) == cut_at_newlines(self.pane(k).rendered()),
            decreases 6 - i,
        {
            let text = self.panes[i].render();
            r.push(cut_text(text.as_str()));
            i = i + 1;
        }
        r
    }

    /// Row `row` of the table, from the panes' cells.
    fn row_at(&self, cells: &Vec<Vec<String>>, row: usize) -> (r: String)
        requires
            cells@.len() == 6,
            forall|k: int| 0 <= k < 6 ==> (#[trigger] cells@[k])@.map_values(|p: String| p@) == cut_at_newlines(self.pane(k).rendered()),
        ensures
            r@ == self.table_row(row as int),
    {
        let mut picked: [String; 6] = [String::new(), String::new(), String::new(), String::new(), String::new(), String::new()];
        let mut i: usize = 0;
        while i < 6
            invariant
                i <= 6,
                cells@.len() == 6,
                forall|k: int| 0 <= k < 6 ==> (#[trigger] cells@[k])@.map_values(|p: String| p@) == cut_at_newlines(self.pane(k).rendered()),
                forall|k: int| 0 <= k < i ==> (#[trigger] picked@[k])@ == table_cell(self.pane(k), row as int),
            decreases 6 - i,
        {
            if row < cells[i].len() {
                proof { assert(cells@[i as int]@.map_values(|p: String| p@)[row as int] == cells@[i as int]@[row as int]@); }
                picked[i] = cells[i][row].clone();
            } else {
                picked[i] = String::new();
            }
            i = i + 1;
        }
        proof {
            assert(picked@.map_values(|p: String| p@) =~= Seq::new(6, |k: int| table_cell(self.pane(k), row as int)));
        }
        self.pane_join(&picked)
    }

    /// Whether the table can be drawn.
    pub fn can_render(&self) -> (b: bool)
        ensures
            b == self.renders(),
    {
        if self.rows == 0 {
            return true;
        }
        let cells = self.pane_cells();
        let first = self.row_at(&cells, 0);
        let n = first.as_str().unicode_len();
        let line = first.as_str().substring_char(0, n - 1);
        proof { assert(line@ =~= self.first_line()); }
        measure_width(line) >= 2
    }

    /// The table as text: a rule, each row, a rule.
    pub fn render(&self) -> (r: String)
        requires
            self.renders(),
        ensures
            r@ == self.rendered_table(),
    {
        if self.rows == 0 {
            let failure = "content failed to render: no newlines in output";
            return String::from_str(failure);
        }
        let cells = self.pane_cells();
        let mut body = String::new();
        let mut row: usize = 0;
        while row < self.rows
            invariant
                row <= self.rows,
                cells@.len() == 6,
                forall|k: int| 0 <= k < 6 ==> (#[trigger] cells@[k])@.map_values(|p: String| p@) == cut_at_newlines(self.pane(k).rendered()),
                body@ == self.table_body(row as nat),
            decreases self.rows - row,
        {
            let line = self.row_at(&cells, row);
            body.append(line.as_str());
            row = row + 1;
        }
        let first = self.row_at(&cells, 0);
        let n = first.as_str().unicode_len();
        let line = first.as_str().substring_char(0, n - 1);
        proof { assert(line@ =~= self.first_line()); }
        let w = measure_width(line);
        let mut cap = String::from_str(" ");
        proof { reveal_strlit(" "); }
        let mut i: usize = 0;
        while i < w - 2
            invariant
                w == text_width(self.first_line()),
                w >= 2,
                i <= w - 2,
                cap@ == seq![' '] + Seq::new(i as nat, |j: int| '\u{2500}'),
            decreases w - 2 - i,
        {
            cap.append("\u{2500}");
            proof {
                reveal_strlit("\u{2500}");
                assert(seq![' '] + Seq::new(i as nat + 1, |j: int| '\u{2500}') =~= seq![' '] + Seq::new(i as nat, |j: int| '\u{2500}') + "\u{2500}"@);
            }
            i = i + 1;
        }
        cap.append(" \n");
        proof {
            reveal_strlit(" \n");
            assert(cap@ =~= self.table_cap());
        }
        let mut out = cap.clone();
        out.append(body.as_str());
        out.append(cap.as_str());
        out
    }

    /// The table as text where it can be drawn; `None` where not.
    pub fn render_checked(&self) -> (r: Option<String>)
        ensures
            r is Some <==> self.renders(),
            r matches Some(t) ==> t@ == self.rendered_table(),
    {
        if self.can_render() {
            Some(self.render())
        } else {
            None
        }
    }
}


/// The bot's status display: a header, six panes and a footer, and every
/// screen shown so far.
pub struct DisplayTerminal {
    header: Pane,
    footer: Pane,
    multi_pane: MultiPane,
    history: Vec<String>,
}

impl DisplayTerminal {
    /// The header pane.
    pub closed spec fn header_pane(&self) -> Pane {
        self.header
    }

    /// The footer pane.
    pub closed spec fn footer_pane(&self) -> Pane {
        self.footer
    }

    /// The six panes.
    pub closed spec fn panes(&self) -> MultiPane {
        self.multi_pane
    }

    /// The screens shown so far, oldest first.
    pub closed spec fn screens(&self) -> Seq<Seq<char>> {
        self.history@.map_values(|s: String| s@)
    }

    /// The panes can be looked up.
    pub closed spec fn wf(&self) -> bool {
        self.multi_pane.wf()
    }

    /// The screen that would be shown now: header, panes and footer, one
    /// below the other.
    pub open spec fn screen(&self) -> Seq<char> {
        self.header_pane().rendered() + seq!['\n'] + self.panes().rendered_table() + seq!['\n'] + self.footer_pane().rendered()
    }

    /// Renders the screen, files it in the history, empties every pane, and
    /// hands the screen back to be written to the terminal.
    pub fn flush(&mut self) -> (content: String)
        requires
            old(self).wf(),
            old(self).panes().renders(),
        ensures
            final(self).wf(),
            content@ == old(self).screen(),
            final(self).screens() == old(self).screens().push(content@),
            final(self).header_pane().lines() == Seq::<Seq<char>>::empty(),
            final(self).footer_pane().lines() == Seq::<Seq<char>>::empty(),
            forall|k: int| 0 <= k < 6 ==> (#[trigger] final(self).panes().pane(k)).lines() == Seq::<Seq<char>>::empty(),
    {
        let multi_content = self.multi_pane.render();
        let header_content = self.header.render();
        let footer_content = self.footer.render();
        let nl = "\n";
        proof {
            reveal_strlit("\n");
            assert(nl@ =~= seq!['\n']);
        }
        let mut content = header_content;
        content.append(nl);
        content.append(multi_content.as_str());
        content.append(nl);
        content.append(footer_content.as_str());
        let filed = content.clone();
        self.history.push(filed);
        proof { assert(self.screens() =~= old(self).screens().push(content@)); }
        self.multi_pane.clear();
        self.header.clear();
        self.footer.clear();
        content
    }

    /// As `flush` where the panes can be drawn; otherwise nothing changes
    /// and `None` comes back.
    pub fn flush_checked(&mut self) -> (content: Option<String>)
        requires
            old(self).wf(),
        ensures
            final(self).wf(),
            content is Some <==> old(self).panes().renders(),
            content is None ==> *final(self) == *old(self),
            content matches Some(c) ==> c@ == old(self).screen()
                && final(self).screens() == old(self).screens().push(c@),
    {
        if self.multi_pane.can_render() {
            Some(self.flush())
        } else {
            None
        }
    }

    /// Writes a line into the pane named `pane_name` (see
    /// `MultiPane::write_line_to_pane`).
    pub fn write_line_to_pane(&mut self, pane_name: &str, msg: String, wrapped: bool)
        requires
            old(self).wf(),
            named_index(old(self).panes().names(), pane_name@) is Some,
            wrapped ==> wrappable(msg@, old(self).panes().pane(named_index(old(self).panes().names(), pane_name@).unwrap() as int).line_width()),
        ensures
            final(self).wf(),
            final(self).header_pane() == old(self).header_pane(),
            final(self).footer_pane() == old(self).footer_pane(),
            final(self).screens() == old(self).screens(),
            ({
                let k = named_index(old(self).panes().names(), pane_name@).unwrap() as int;
                &&& forall|m: int| 0 <= m < 6 && m != k ==> #[trigger] final(self).panes().pane(m) == old(self).panes().pane(m)
                &&& !wrapped ==> final(self).panes().pane(k).lines() == old(self).panes().pane(k).lines().push(msg@)
                &&& wrapped ==> extends_wrapped(old(self).panes().pane(k).lines(), final(self).panes().pane(k).lines(), msg@, old(self).panes().pane(k).line_width())
            }),
    {
        self.multi_pane.write_line_to_pane(pane_name, msg, wrapped);
    }

    /// As `write_line_to_pane` where the pane exists and a wrapped line cuts
    /// cleanly; otherwise nothing is written and `false` comes back.
    pub fn try_write_line_to_pane(&mut self, pane_name: &str, msg: String, wrapped: bool) -> (written: bool)
        requires
            old(self).wf(),
        ensures
            final(self).wf(),
            written == (named_index(old(self).panes().names(), pane_name@) is Some
                && (wrapped ==> wrappable(msg@, old(self).panes().pane(named_index(old(self).panes().names(), pane_name@).unwrap() as int).line_width()))),
            !written ==> *final(self) == *old(self),
    {
        self.multi_pane.try_write_line_to_pane(pane_name, msg, wrapped)
    }

    /// Writes a line into the header.
    pub fn write_line_to_header(&mut self, msg: String)
        ensures
            final(self).header_pane().lines() == old(self).header_pane().lines().push(msg@),
            final(self).header_pane().title() == old(self).header_pane().title(),
            final(self).header_pane().line_width() == old(self).header_pane().line_width(),
            final(self).header_pane().row_count() == old(self).header_pane().row_count(),
            final(self).footer_pane() == old(self).footer_pane(),
            final(self).panes() == old(self).panes(),
            final(self).screens() == old(self).screens(),
    {
        self.header.add_line(msg);
    }

    /// Writes a line into the footer.
    pub fn write_line_to_footer(&mut self, msg: String)
        ensures
            final(self).footer_pane().lines() == old(self).footer_pane().lines().push(msg@),
            final(self).footer_pane().title() == old(self).footer_pane().title(),
            final(self).footer_pane().line_width() == old(self).footer_pane().line_width(),
            final(self).footer_pane().row_count() == old(self).footer_pane().row_count(),
            final(self).header_pane() == old(self).header_pane(),
            final(self).panes() == old(self).panes(),
            final(self).screens() == old(self).screens(),
    {
        self.footer.add_line(msg);
    }

    /// Every screen shown so far, separated by blank lines.
    pub fn history_text(&self) -> (r: String)
        ensures
            r@ == joined(self.screens(), seq!['\n', '\n']),
    {
        let sep = "\n\n";
        proof {
            reveal_strlit("\n\n");
            assert(sep@ =~= seq!['\n', '\n']);
        }
        join_texts(&self.history, sep)
    }
}

impl Default for DisplayTerminal {
    /// The panes Production, Construction, Research, Army, Build Order and
    /// Errors, 25 rows tall, with a header of three rows and a footer of
    /// five as wide as the six panes together.
    fn default() -> (d: Self)
        ensures
            d.wf(),
            d.screens() == Seq::<Seq<char>>::empty(),
            d.header_pane().title() == "header"@,
            d.header_pane().line_width() == 175,
            d.header_pane().row_count() == 3,
            d.header_pane().lines() == Seq::<Seq<char>>::empty(),
            d.footer_pane().title() == "footer"@,
            d.footer_pane().line_width() == 175,
            d.footer_pane().row_count() == 5,
            d.footer_pane().lines() == Seq::<Seq<char>>::empty(),
            d.panes().row_count() == 25,
            d.panes().pane(0).title() == "Production"@ && d.panes().pane(0).line_width() == 20,
            d.panes().pane(1).title() == "Construction"@ && d.panes().pane(1).line_width() == 25,
            d.panes().pane(2).title() == "Research"@ && d.panes().pane(2).line_width() == 25,
            d.panes().pane(3).title() == "Army"@ && d.panes().pane(3).line_width() == 20,
            d.panes().pane(4).title() == "Build Order"@ && d.panes().pane(4).line_width() == 25,
            d.panes().pane(5).title() == "Errors"@ && d.panes().pane(5).line_width() == 60,
    {
        let template: [(String, usize); 6] = [
            (String::from_str("Production"), 20),
            (String::from_str("Construction"), 25),
            (String::from_str("Research"), 25),
            (String::from_str("Army"), 20),
            (String::from_str("Build Order"), 25),
            (String::from_str("Errors"), 60),
        ];
        let mut multi_width: usize = 0;
        let mut i: usize = 0;
        while i < 6
            invariant
                i <= 6,
                forall|k: int| 0 <= k < 6 ==> (#[trigger] template@[k]).1 <= 60,
                multi_width <= 60 * i,
                multi_width == (if i == 0 { 0usize } else if i == 1 { 20 } else if i == 2 { 45 } else if i == 3 { 70 } else if i == 4 { 90 } else if i == 5 { 115 } else { 175 }),
                template@[0].1 == 20 && template@[1].1 == 25 && template@[2].1 == 25,
                template@[3].1 == 20 && template@[4].1 == 25 && template@[5].1 == 60,
            decreases 6 - i,
        {
            multi_width = multi_width + template[i].1;
            i = i + 1;
        }
        DisplayTerminal {
            header: Pane::new(multi_width, 3, String::from_str("header")),
            footer: Pane::new(multi_width, 5, String::from_str("footer")),
            multi_pane: MultiPane::new(template, 25),
            history: Vec::new(),
        }
    }
}


/// Wrapping loses nothing: the pieces, put back together, are the bytes,
/// and each piece holds at least one and at most `width` bytes.
pub proof fn law_wrapping_keeps_text(bytes: Seq<u8>, width: usize)
    requires
        width > 0,
    ensures
        wrapped_pieces(bytes, width).flatten() == bytes,
        forall|k: int| 0 <= k < wrapped_pieces(bytes, width).len()
            ==> 0 < (#[trigger] wrapped_pieces(bytes, width)[k]).len() <= width,
    decreases bytes.len(),
{
    if bytes.len() > 0 {
        let cut = if width < bytes.len() { width as int } else { bytes.len() as int };
        let rest = bytes.subrange(cut, bytes.len() as int);
        law_wrapping_keeps_text(rest, width);
        let pieces = wrapped_pieces(bytes, width);
        assert(pieces == seq![bytes.subrange(0, cut)] + wrapped_pieces(rest, width));
        assert(pieces.drop_first() =~= wrapped_pieces(rest, width));
        assert(bytes =~= bytes.subrange(0, cut) + rest);
        assert forall|k: int| 0 <= k < pieces.len() implies 0 < (#[trigger] pieces[k]).len() <= width by {
            if k > 0 {
                assert(pieces[k] == wrapped_pieces(rest, width)[k - 1]);
            }
        }
    }
}

} // verus!
