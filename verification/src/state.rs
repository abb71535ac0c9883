//! The selection-list state machine.
//!
//! A [`State`] owns the ordered list of displayed lines, one boolean
//! selection flag per line, and a single cursor. Every time the command
//! reruns, the line set is replaced wholesale through [`State::set_lines`],
//! which keeps the selection flags by index and clamps the cursor back into
//! range; cursor movement clamps at the ends and never wraps. The text of
//! the selected lines — or of the cursor line, when nothing is selected —
//! is what later command executions receive.

use vstd::prelude::*;

verus! {

/// How one row is displayed: as an ordinary line or as the line under the
/// cursor.
#[derive(Clone, Copy, PartialEq, Eq, Debug)]
pub enum LineStyle {
    Normal,
    Cursor,
}

/// One displayed row: its text and its display style.
pub struct Line {
    pub text: String,
    pub style: LineStyle,
}

/// The spec-level value of a [`Line`].
#[verifier::ext_equal]
pub ghost struct LineView {
    pub text: Seq<char>,
    pub style: LineStyle,
}

impl View for Line {
    type V = LineView;

    open spec fn view(&self) -> LineView {
        LineView { text: self.text@, style: self.style }
    }
}

impl Line {
    /// A freshly created row displays as an ordinary line.
    pub fn new(text: String) -> (r: Line)
        ensures
            r@.text == text@,
            r@.style == LineStyle::Normal,
    {
        Line { text, style: LineStyle::Normal }
    }

    /// The row's text.
    pub fn get(&self) -> (r: String)
        ensures
            r@ == self@.text,
    {
        self.text.clone()
    }
}

/// The spec-level state of the selection list.
#[verifier::ext_equal]
pub ghost struct StateView {
    pub lines: Seq<LineView>,
    pub selected: Seq<bool>,
    pub cursor: Option<int>,
}

/// The style the line at index `i` carries when the cursor stands at `c`.
pub open spec fn cursor_style_at(c: Option<int>, i: int) -> LineStyle {
    if c == Some(i) {
        LineStyle::Cursor
    } else {
        LineStyle::Normal
    }
}

impl StateView {
    /// The invariant every operation preserves: one selection flag per
    /// line; the cursor exists exactly when there are lines and then points
    /// at one of them; and exactly the line under the cursor carries the
    /// cursor style.
    pub open spec fn wf(self) -> bool {
        &&& self.selected.len() == self.lines.len()
        &&& (self.cursor is None <==> self.lines.len() == 0)
        &&& (self.cursor matches Some(c) ==> 0 <= c < self.lines.len())
        &&& (forall|i: int|
            0 <= i < self.lines.len() ==> self.lines[i].style == cursor_style_at(self.cursor, i))
    }
}

/// `s` with the cursor placed at `c` and every line's style recomputed: the
/// line the cursor leaves reverts to normal, the one it reaches becomes the
/// cursor line.
pub open spec fn spec_with_cursor(s: StateView, c: Option<int>) -> StateView {
    StateView {
        lines: Seq::new(
            s.lines.len(),
            |i: int| LineView { text: s.lines[i].text, style: cursor_style_at(c, i) },
        ),
        selected: s.selected,
        cursor: c,
    }
}

/// Where the cursor stands after the line set is replaced by `new_len`
/// lines: gone when no lines are left, on the first line when it was
/// nowhere, and otherwise clamped into the new range — a cursor past the
/// end of a shrunk list snaps to the new last line.
pub open spec fn spec_calibrated_cursor(c: Option<int>, new_len: int) -> Option<int> {
    if new_len == 0 {
        None
    } else {
        match c {
            None => Some(0int),
            Some(i) => Some(
                if i <= new_len - 1 {
                    i
                } else {
                    new_len - 1
                },
            ),
        }
    }
}

/// The whole effect of replacing the line set by `texts`: fresh lines,
/// selection flags kept by index (flags past the new end are dropped, new
/// indices start unselected), the cursor recalibrated, and the styles
/// following the cursor.
pub open spec fn spec_set_lines(s: StateView, texts: Seq<Seq<char>>) -> StateView {
    let cursor = spec_calibrated_cursor(s.cursor, texts.len() as int);
    StateView {
        lines: Seq::new(
            texts.len(),
            |i: int| LineView { text: texts[i], style: cursor_style_at(cursor, i) },
        ),
        selected: Seq::new(
            texts.len(),
            |i: int|
                if i < s.selected.len() {
                    s.selected[i]
                } else {
                    false
                },
        ),
        cursor,
    }
}

/// `s` with every line selected.
pub open spec fn spec_select_all(s: StateView) -> StateView {
    StateView { selected: Seq::new(s.selected.len(), |i: int| true), ..s }
}

/// `s` with no line selected.
pub open spec fn spec_unselect_all(s: StateView) -> StateView {
    StateView { selected: Seq::new(s.selected.len(), |i: int| false), ..s }
}

/// The texts of the selected lines among the first `n`, in list order.
pub open spec fn selected_texts_upto(s: StateView, n: int) -> Seq<Seq<char>>
    decreases n,
{
    if n <= 0 {
        Seq::empty()
    } else {
        let prev = selected_texts_upto(s, n - 1);
        if s.selected[n - 1] {
            prev.push(s.lines[n - 1].text)
        } else {
            prev
        }
    }
}

/// The texts of all selected lines, in list order.
pub open spec fn selected_texts(s: StateView) -> Seq<Seq<char>> {
    selected_texts_upto(s, s.lines.len() as int)
}

/// Whether any line is selected.
pub open spec fn any_selected(s: StateView) -> bool {
    exists|i: int| 0 <= i < s.selected.len() && s.selected[i]
}

/// The given texts joined with single newline separators, in order.
pub open spec fn join_lines(ts: Seq<Seq<char>>) -> Seq<char>
    decreases ts.len(),
{
    if ts.len() == 0 {
        Seq::empty()
    } else if ts.len() == 1 {
        ts[0]
    } else {
        join_lines(ts.drop_last()) + seq!['\n'] + ts.last()
    }
}

/// The spec-level cursor carried by an executable cursor value.
pub open spec fn cursor_model(c: Option<usize>) -> Option<int> {
    match c {
        Some(i) => Some(i as int),
        None => None,
    }
}

/// The character sequences carried by a list of strings.
pub open spec fn texts_of(lines: Seq<String>) -> Seq<Seq<char>> {
    lines.map_values(|s: String| s@)
}

/// The selection list: the displayed lines, one selection flag per line,
/// and the cursor. The cursor is absent exactly while the list is empty.
pub struct State {
    lines: Vec<Line>,
    selected: Vec<bool>,
    cursor: Option<usize>,
}

impl View for State {
    type V = StateView;

    closed spec fn view(&self) -> StateView {
        StateView {
            lines: self.lines@.map_values(|l: Line| l@),
            selected: self.selected@,
            cursor: cursor_model(self.cursor),
        }
    }
}

impl State {
    /// An empty list: no lines, no selection, no cursor.
    pub fn new() -> (r: State)
        ensures
            r@.wf(),
            r@.lines.len() == 0,
            r@.selected.len() == 0,
            r@.cursor is None,
    {
        let r = State { lines: Vec::new(), selected: Vec::new(), cursor: None };
        proof {
            assert(r@.lines =~= Seq::<LineView>::empty());
        }
        r
    }

    /// Places the cursor at `new` and restyles the two affected lines. The
    /// caller guarantees that every line off the old cursor is styled
    /// normal, so the two-sided update leaves exactly the new cursor line
    /// highlighted.
    fn set_cursor(&mut self, new: Option<usize>)
        requires
            new matches Some(i) ==> i < old(self)@.lines.len(),
            forall|i: int|
                0 <= i < old(self)@.lines.len() && old(self)@.cursor != Some(i) ==> old(self)@.lines[i].style == cursor_style_at(old(self)@.cursor, i),
        ensures
            final(self)@ == spec_with_cursor(old(self)@, cursor_model(new)),
    {
        match self.cursor {
            Some(old_i) => {
                if old_i < self.lines.len() {
                    self.lines[old_i].style = LineStyle::Normal;
                }
            },
            None => {},
        }
        match new {
            Some(new_i) => {
                self.lines[new_i].style = LineStyle::Cursor;
            },
            None => {},
        }
        self.cursor = new;
        proof {
            let target = spec_with_cursor(old(self)@, cursor_model(new));
            assert(self@.lines.len() == target.lines.len());
            assert forall|i: int| 0 <= i < self@.lines.len() implies self@.lines[i]
                == target.lines[i] by {
                if old(self)@.cursor != Some(i) {
                    assert(old(self)@.lines[i].style == cursor_style_at(old(self)@.cursor, i));
                }
                assert(self@.lines[i] == self.lines@[i]@);
                assert(target.lines[i] == (LineView {
                    text: old(self)@.lines[i].text,
                    style: cursor_style_at(cursor_model(new), i),
                }));
                assert(self@.lines[i] =~= target.lines[i]);
            }
            assert(self@.lines =~= target.lines);
            assert(self@ =~~= target);
        }
    }

    /// Clamps the cursor back into the current line range: no cursor on an
    /// empty list, the first line when there was no cursor, and otherwise
    /// the old position snapped to the last line when it fell off the end.
    fn cursor_calibrate(&mut self)
        requires
            forall|i: int|
                0 <= i < old(self)@.lines.len() && old(self)@.cursor != Some(i) ==> old(self)@.lines[i].style == cursor_style_at(old(self)@.cursor, i),
        ensures
            final(self)@ == spec_with_cursor(
                old(self)@,
                spec_calibrated_cursor(old(self)@.cursor, old(self)@.lines.len() as int),
            ),
    {
        if self.lines.len() == 0 {
            self.set_cursor(None);
        } else {
            match self.cursor {
                None => self.set_cursor(Some(0)),
                Some(i) => {
                    let last = self.lines.len() - 1;
                    let target = if i > last {
                        last
                    } else {
                        i
                    };
                    self.set_cursor(Some(target));
                },
            }
        }
    }

    /// Replaces the displayed lines by `lines`: the selection flags are
    /// kept by index (flags past the new end are dropped, new lines start
    /// unselected), the cursor is recalibrated, and the line styles follow
    /// it.
    #[verifier::loop_isolation(false)]
    pub fn set_lines(&mut self, lines: Vec<String>)
        requires
            old(self)@.wf(),
        ensures
            final(self)@.wf(),
            final(self)@ == spec_set_lines(old(self)@, texts_of(lines@)),
            forall|i: int|
                0 <= i < old(self)@.selected.len() && i < lines@.len() ==> final(self)@.selected[i] == old(self)@.selected[i],
            forall|i: int|
                old(self)@.selected.len() <= i < lines@.len() ==> final(self)@.selected[i]
                    == false,
            final(self)@.cursor == spec_calibrated_cursor(old(self)@.cursor, lines@.len() as int),
    {
        let n = lines.len();
        self.selected.resize(n, false);
        let mut new_lines: Vec<Line> = Vec::new();
        let mut i: usize = 0;
        while i < n
            invariant
                i <= n,
                new_lines@.len() == i as int,
                forall|j: int|
                    0 <= j < i ==> new_lines@[j]@ == (LineView {
                        text: lines@[j]@,
                        style: LineStyle::Normal,
                    }),
            decreases n - i,
        {
            new_lines.push(Line::new(lines[i].clone()));
            i = i + 1;
        }
        self.lines = new_lines;
        let ghost mid = self@;
        proof {
            assert(forall|j: int|
                0 <= j < mid.lines.len() ==> mid.lines[j].style == LineStyle::Normal);
        }
        self.cursor_calibrate();
        proof {
            assert(self@ =~~= spec_set_lines(old(self)@, texts_of(lines@)));
        }
    }

    /// The current cursor position, when there is one.
    pub fn cursor_position(&self) -> (r: Option<usize>)
        ensures
            cursor_model(r) == self@.cursor,
    {
        self.cursor
    }

    /// The displayed lines.
    pub fn lines(&self) -> (r: &Vec<Line>)
        ensures
            r@.len() == self@.lines.len(),
            forall|i: int| 0 <= i < r@.len() ==> r@[i]@ == self@.lines[i],
    {
        &self.lines
    }

    /// The selection flags, index-aligned with the lines.
    pub fn selected(&self) -> (r: &Vec<bool>)
        ensures
            r@ == self@.selected,
    {
        &self.selected
    }

    /// Moves the cursor `steps` lines down, clamping at the last line and
    /// never wrapping; does nothing without a cursor.
    pub fn down(&mut self, steps: usize)
        requires
            old(self)@.wf(),
        ensures
            final(self)@.wf(),
            old(self)@.cursor is None ==> final(self)@ == old(self)@,
            old(self)@.cursor matches Some(c) ==> final(self)@ == spec_with_cursor(
                old(self)@,
                Some(
                    if c + steps <= old(self)@.lines.len() - 1 {
                        c + steps
                    } else {
                        old(self)@.lines.len() - 1
                    },
                ),
            ),
    {
        match self.cursor {
            Some(i) => {
                let last = self.lines.len() - 1;
                let target = if steps > last - i {
                    last
                } else {
                    i + steps
                };
                self.set_cursor(Some(target));
                proof {
                    lemma_with_cursor_wf(old(self)@, target as int);
                }
            },
            None => {},
        }
    }

    /// Moves the cursor `steps` lines up, clamping at the first line and
    /// never wrapping: moving up from the first line by any number of steps
    /// keeps the cursor there. Does nothing without a cursor.
    pub fn up(&mut self, steps: usize)
        requires
            old(self)@.wf(),
        ensures
            final(self)@.wf(),
            old(self)@.cursor is None ==> final(self)@ == old(self)@,
            old(self)@.cursor matches Some(c) ==> final(self)@ == spec_with_cursor(
                old(self)@,
                Some(
                    if steps <= c {
                        c - steps
                    } else {
                        0int
                    },
                ),
            ),
    {
        match self.cursor {
            Some(i) => {
                let target = if steps > i {
                    0
                } else {
                    i - steps
                };
                self.set_cursor(Some(target));
                proof {
                    lemma_with_cursor_wf(old(self)@, target as int);
                }
            },
            None => {},
        }
    }

    /// Jumps the cursor to the first line, when there is one.
    pub fn first(&mut self)
        requires
            old(self)@.wf(),
        ensures
            final(self)@.wf(),
            old(self)@.lines.len() == 0 ==> final(self)@ == old(self)@,
            old(self)@.lines.len() > 0 ==> final(self)@ == spec_with_cursor(old(self)@, Some(0int)),
    {
        if self.lines.len() == 0 {
            proof {
                lemma_with_cursor_self(old(self)@);
            }
        } else {
            self.set_cursor(Some(0));
            proof {
                lemma_with_cursor_wf(old(self)@, 0int);
            }
        }
    }

    /// Jumps the cursor to the last line, when there is one.
    pub fn last(&mut self)
        requires
            old(self)@.wf(),
        ensures
            final(self)@.wf(),
            old(self)@.lines.len() == 0 ==> final(self)@ == old(self)@,
            old(self)@.lines.len() > 0 ==> final(self)@ == spec_with_cursor(
                old(self)@,
                Some(old(self)@.lines.len() - 1),
            ),
    {
        if self.lines.len() == 0 {
            proof {
                lemma_with_cursor_self(old(self)@);
            }
        } else {
            let last = self.lines.len() - 1;
            self.set_cursor(Some(last));
            proof {
                lemma_with_cursor_wf(old(self)@, last as int);
            }
        }
    }

    /// Selects the cursor line; does nothing without a cursor.
    pub fn select(&mut self)
        requires
            old(self)@.wf(),
        ensures
            final(self)@.wf(),
            old(self)@.cursor is None ==> final(self)@ == old(self)@,
            old(self)@.cursor matches Some(c) ==> final(self)@ == (StateView {
                selected: old(self)@.selected.update(c, true),
                ..old(self)@
            }),
    {
        match self.cursor {
            Some(i) => {
                self.selected[i] = true;
            },
            None => {},
        }
    }

    /// Unselects the cursor line; does nothing without a cursor.
    pub fn unselect(&mut self)
        requires
            old(self)@.wf(),
        ensures
            final(self)@.wf(),
            old(self)@.cursor is None ==> final(self)@ == old(self)@,
            old(self)@.cursor matches Some(c) ==> final(self)@ == (StateView {
                selected: old(self)@.selected.update(c, false),
                ..old(self)@
            }),
    {
        match self.cursor {
            Some(i) => {
                self.selected[i] = false;
            },
            None => {},
        }
    }

    /// Toggles the cursor line's selection; does nothing without a cursor.
    pub fn select_toggle(&mut self)
        requires
            old(self)@.wf(),
        ensures
            final(self)@.wf(),
            old(self)@.cursor is None ==> final(self)@ == old(self)@,
            old(self)@.cursor matches Some(c) ==> final(self)@ == (StateView {
                selected: old(self)@.selected.update(c, !old(self)@.selected[c]),
                ..old(self)@
            }),
    {
        match self.cursor {
            Some(i) => {
                let flag = self.selected[i];
                self.selected[i] = !flag;
            },
            None => {},
        }
    }

    /// Selects every line.
    pub fn select_all(&mut self)
        requires
            old(self)@.wf(),
        ensures
            final(self)@.wf(),
            final(self)@ == spec_select_all(old(self)@),
    {
        let n = self.selected.len();
        self.selected = vec![true; n];
        proof {
            assert(self@ =~~= spec_select_all(old(self)@));
        }
    }

    /// Unselects every line.
    pub fn unselect_all(&mut self)
        requires
            old(self)@.wf(),
        ensures
            final(self)@.wf(),
            final(self)@ == spec_unselect_all(old(self)@),
    {
        let n = self.selected.len();
        self.selected = vec![false; n];
        proof {
            assert(self@ =~~= spec_unselect_all(old(self)@));
        }
    }

    /// The newline-joined text of the selected lines, in list order and
    /// regardless of the cursor. When no line is selected, the cursor
    /// line's text; on an empty list, nothing.
    #[verifier::loop_isolation(false)]
    pub fn get_selected_lines(&self) -> (r: Option<String>)
        requires
            self@.wf(),
        ensures
            any_selected(self@) ==> (r matches Some(t) && t@ == join_lines(selected_texts(self@))),
            !any_selected(self@) ==> (self@.cursor matches Some(c) ==> (r matches Some(t) && t@
                == self@.lines[c].text)),
            !any_selected(self@) && self@.cursor is None ==> r is None,
    {
        let n = self.lines.len();
        let mut result = String::new();
        let mut found = false;
        let mut i: usize = 0;
        while i < n
            invariant
                i <= n,
                found <==> selected_texts_upto(self@, i as int).len() > 0,
                result@ == join_lines(selected_texts_upto(self@, i as int)),
            decreases n - i,
        {
            if self.selected[i] {
                proof {
                    lemma_join_push(selected_texts_upto(self@, i as int), self@.lines[i as int].text);
                    reveal_strlit("\n");
                    assert("\n"@ =~= seq!['\n']);
                }
                if found {
                    result.append("\n");
                }
                result.append(self.lines[i].text.as_str());
                found = true;
            }
            i = i + 1;
        }
        proof {
            lemma_selected_texts_some(self@, n as int);
        }
        if found {
            Some(result)
        } else {
            match self.cursor {
                Some(c) => Some(self.lines[c].get()),
                None => None,
            }
        }
    }
}

/// Recomputing every style for a cursor inside the range restores the
/// invariant.
proof fn lemma_with_cursor_wf(s: StateView, c: int)
    requires
        s.wf(),
        0 <= c < s.lines.len(),
    ensures
        spec_with_cursor(s, Some(c)).wf(),
{
}

/// Recomputing the styles without moving the cursor changes nothing.
proof fn lemma_with_cursor_self(s: StateView)
    requires
        s.wf(),
    ensures
        spec_with_cursor(s, s.cursor) == s,
{
    assert(spec_with_cursor(s, s.cursor) =~~= s);
}

/// Appending one more text extends a newline join by one separator and
/// that text.
proof fn lemma_join_push(ts: Seq<Seq<char>>, t: Seq<char>)
    ensures
        ts.len() == 0 ==> join_lines(ts.push(t)) == t,
        ts.len() > 0 ==> join_lines(ts.push(t)) == join_lines(ts) + seq!['\n'] + t,
{
    let p = ts.push(t);
    if ts.len() == 0 {
        assert(p.len() == 1);
        assert(p[0] == t);
    } else {
        assert(p.drop_last() =~= ts);
        assert(p.last() == t);
    }
}

/// Some text is collected from the first `n` lines exactly when one of
/// them is selected.
proof fn lemma_selected_texts_some(s: StateView, n: int)
    requires
        n <= s.selected.len(),
    ensures
        selected_texts_upto(s, n).len() > 0 <==> exists|i: int| 0 <= i < n && s.selected[i],
    decreases n,
{
    if n > 0 {
        lemma_selected_texts_some(s, n - 1);
    }
}

/// Clearing every selection twice is the same as clearing it once.
pub proof fn lemma_unselect_all_idempotent(s: StateView)
    ensures
        spec_unselect_all(spec_unselect_all(s)) == spec_unselect_all(s),
{
    assert(spec_unselect_all(spec_unselect_all(s)) =~~= spec_unselect_all(s));
}

/// Selecting every line twice is the same as selecting every line once.
pub proof fn lemma_select_all_idempotent(s: StateView)
    ensures
        spec_select_all(spec_select_all(s)) == spec_select_all(s),
{
    assert(spec_select_all(spec_select_all(s)) =~~= spec_select_all(s));
}

/// Replacing the line set twice with the same texts leaves the lines, the
/// cursor and the selection exactly as after the first replacement.
pub proof fn lemma_set_lines_idempotent(s: StateView, texts: Seq<Seq<char>>)
    ensures
        spec_set_lines(spec_set_lines(s, texts), texts) == spec_set_lines(s, texts),
{
    assert(spec_set_lines(spec_set_lines(s, texts), texts) =~~= spec_set_lines(s, texts));
}

} // verus!
