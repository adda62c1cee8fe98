use vstd::prelude::*;

verus! {

/// The pane that receives navigation input: the deck on the left, the
/// chosen cards on the right.
#[derive(PartialEq, Eq, Structural, Clone, Copy, Debug)]
pub enum Side {
    Left,
    Right,
}

/// Whether the indices rise strictly from first to last.
pub open spec fn ascending(s: Seq<usize>) -> bool {
    forall|a: int, b: int| 0 <= a < b < s.len() ==> s[a] < s[b]
}

/// The cursor after one step down in a pane of `n` rows: the next row,
/// wrapping from the last to the first. An unset cursor lands on the first row.
pub open spec fn step_down(c: Option<usize>, n: nat) -> Option<usize> {
    match c {
        None => Some(0),
        Some(i) => if i + 1 >= n {
            Some(0)
        } else {
            Some((i + 1) as usize)
        },
    }
}

/// The cursor after one step up in a pane of `n` rows: the previous row,
/// wrapping from the first to the last. An unset cursor lands on the first row.
pub open spec fn step_up(c: Option<usize>, n: nat) -> Option<usize> {
    match c {
        None => Some(0),
        Some(i) => if i == 0 {
            Some((n - 1) as usize)
        } else {
            Some((i - 1) as usize)
        },
    }
}

/// `i` if it is a row of a pane of `n` rows, else the last row.
pub open spec fn clamp(i: usize, n: nat) -> usize {
    if i < n {
        i
    } else {
        (n - 1) as usize
    }
}

/// `s` with `i` put in after the members below it.
pub open spec fn insert_ascending(s: Seq<usize>, i: usize) -> Seq<usize>
    decreases s.len(),
{
    if s.len() == 0 {
        seq![i]
    } else if s.last() < i {
        s.push(i)
    } else {
        insert_ascending(s.drop_last(), i).push(s.last())
    }
}

/// Below an ascending `s`, inserting `i` at the row that splits the members
/// below `i` from those above it gives `insert_ascending(s, i)`.
proof fn lemma_insert_at_rank(s: Seq<usize>, i: usize, p: int)
    requires
        ascending(s),
        0 <= p <= s.len(),
        forall|q: int| 0 <= q < p ==> s[q] < i,
        forall|q: int| p <= q < s.len() ==> s[q] > i,
    ensures
        insert_ascending(s, i) == s.insert(p, i),
        ascending(s.insert(p, i)),
    decreases s.len(),
{
    let r = s.insert(p, i);
    assert forall|a: int, b: int| 0 <= a < b < r.len() implies r[a] < r[b] by {
        if b < p {
        } else if b == p {
        } else if a < p {
        } else if a == p {
        } else {
        }
    }
    if s.len() == 0 {
        assert(r =~= seq![i]);
    } else if s.last() < i {
        assert(r =~= s.push(i));
    } else {
        lemma_insert_at_rank(s.drop_last(), i, p);
        assert(r =~= s.drop_last().insert(p, i).push(s.last()));
    }
}

/// The abstract state of the selection list.
pub struct ListView {
    /// The deck: (pronunciation, glyph) pairs in load order.
    pub cards: Seq<(String, String)>,
    /// The chosen deck positions, in ascending order: the selected pane.
    pub selection: Seq<usize>,
    pub side: Side,
    /// Cursor into `cards`.
    pub choose_cursor: Option<usize>,
    /// Cursor into `selection` (a display position).
    pub selected_cursor: Option<usize>,
    /// The deck cursor as it was when the focus last went right.
    pub last_chosen: usize,
    /// The selected-pane cursor as it was when the focus last went left.
    pub last_selected: usize,
}

/// A fresh list over `cards`: nothing chosen, the deck focused, no cursor set.
pub open spec fn initial_view(cards: Seq<(String, String)>) -> ListView {
    ListView {
        cards,
        selection: Seq::empty(),
        side: Side::Left,
        choose_cursor: None,
        selected_cursor: None,
        last_chosen: 0,
        last_selected: 0,
    }
}

impl ListView {
    /// Chosen positions are distinct deck positions kept in ascending order,
    /// and each cursor that is set points at a row of its pane.
    pub open spec fn wf(self) -> bool {
        &&& self.cards.len() <= usize::MAX
        &&& ascending(self.selection)
        &&& forall|p: int| 0 <= p < self.selection.len() ==> self.selection[p] < self.cards.len()
        &&& (self.choose_cursor matches Some(i) ==> i < self.cards.len())
        &&& (self.selected_cursor matches Some(i) ==> i < self.selection.len())
    }

    /// The number of rows in the focused pane.
    pub open spec fn focused_len(self) -> nat {
        match self.side {
            Side::Left => self.cards.len(),
            Side::Right => self.selection.len(),
        }
    }

    /// The cursor of the focused pane.
    pub open spec fn focused_cursor(self) -> Option<usize> {
        match self.side {
            Side::Left => self.choose_cursor,
            Side::Right => self.selected_cursor,
        }
    }

    pub open spec fn with_focused_cursor(self, c: Option<usize>) -> ListView {
        match self.side {
            Side::Left => ListView { choose_cursor: c, ..self },
            Side::Right => ListView { selected_cursor: c, ..self },
        }
    }

    /// One step down in the focused pane; nothing happens in an empty pane.
    pub open spec fn down(self) -> ListView {
        if self.focused_len() == 0 {
            self
        } else {
            self.with_focused_cursor(step_down(self.focused_cursor(), self.focused_len()))
        }
    }

    /// One step up in the focused pane; nothing happens in an empty pane.
    pub open spec fn up(self) -> ListView {
        if self.focused_len() == 0 {
            self
        } else {
            self.with_focused_cursor(step_up(self.focused_cursor(), self.focused_len()))
        }
    }

    /// `k` steps down.
    pub open spec fn down_times(self, k: nat) -> ListView
        decreases k,
    {
        if k == 0 {
            self
        } else {
            self.down().down_times((k - 1) as nat)
        }
    }

    /// `k` steps up.
    pub open spec fn up_times(self, k: nat) -> ListView
        decreases k,
    {
        if k == 0 {
            self
        } else {
            self.up().up_times((k - 1) as nat)
        }
    }

    /// Focus goes to the selected pane, if it has rows. The deck cursor is
    /// remembered and cleared; coming from the left, the selected pane gets back
    /// the cursor it had (the last row if it has shrunk since).
    pub open spec fn right(self) -> ListView {
        if self.selection.len() == 0 {
            self
        } else {
            ListView {
                last_chosen: match self.choose_cursor {
                    Some(i) => i,
                    None => self.last_chosen,
                },
                selected_cursor: match self.side {
                    Side::Left => Some(clamp(self.last_selected, self.selection.len())),
                    Side::Right => self.selected_cursor,
                },
                side: Side::Right,
                choose_cursor: None,
                ..self
            }
        }
    }

    /// Focus goes to the deck. The selected-pane cursor is remembered and
    /// cleared; coming from the right, the deck gets back the cursor it had.
    pub open spec fn left(self) -> ListView {
        ListView {
            last_selected: match self.selected_cursor {
                Some(i) => i,
                None => self.last_selected,
            },
            choose_cursor: match self.side {
                Side::Left => self.choose_cursor,
                Side::Right => if self.cards.len() == 0 {
                    None
                } else {
                    Some(clamp(self.last_chosen, self.cards.len()))
                },
            },
            side: Side::Left,
            selected_cursor: None,
            ..self
        }
    }

    /// With the deck focused and its cursor on a card not yet chosen, that
    /// card joins the selection; otherwise nothing changes.
    pub open spec fn select(self) -> ListView {
        match self.choose_cursor {
            Some(i) => if self.side == Side::Left && i < self.cards.len()
                && !self.selection.contains(i) {
                ListView { selection: insert_ascending(self.selection, i), ..self }
            } else {
                self
            },
            None => self,
        }
    }

    /// With the selected pane focused and its cursor on row `p`, the deck
    /// position shown on row `p` leaves the selection; the cursor stays on
    /// row `p`, or on the new last row, or is cleared when the pane empties.
    pub open spec fn remove(self) -> ListView {
        match self.selected_cursor {
            Some(p) => if self.side == Side::Right && p < self.selection.len() {
                let rest = self.selection.remove(p as int);
                ListView {
                    selection: rest,
                    selected_cursor: if rest.len() == 0 {
                        None
                    } else {
                        Some(clamp(p, rest.len()))
                    },
                    ..self
                }
            } else {
                self
            },
            None => self,
        }
    }

    /// The cards of the selected pane, top to bottom.
    pub open spec fn pane(self) -> Seq<(String, String)> {
        self.selection.map_values(|k: usize| self.cards[k as int])
    }
}

/// The two-pane selection list over a deck of cards.
pub struct HiraganaListState {
    items: Vec<(String, String)>,
    selected: Vec<usize>,
    side: Side,
    choose_state: Option<usize>,
    selected_state: Option<usize>,
    last_chosen: usize,
    last_selected: usize,
}

impl View for HiraganaListState {
    type V = ListView;

    closed spec fn view(&self) -> ListView {
        ListView {
            cards: self.items@,
            selection: self.selected@,
            side: self.side,
            choose_cursor: self.choose_state,
            selected_cursor: self.selected_state,
            last_chosen: self.last_chosen,
            last_selected: self.last_selected,
        }
    }
}

impl HiraganaListState {
    #[verifier::type_invariant]
    spec fn inv(&self) -> bool {
        self@.wf()
    }

    pub fn new(items: Vec<(String, String)>) -> (r: Self)
        ensures
            r@ == initial_view(items@),
            r@.wf(),
    {
        let n = items.len();
        assert(items@.len() == n);
        HiraganaListState {
            items,
            selected: Vec::new(),
            side: Side::Left,
            choose_state: None,
            selected_state: None,
            last_chosen: 0,
            last_selected: 0,
        }
    }

    pub fn down(&mut self)
        ensures
            final(self)@ == old(self)@.down(),
            final(self)@.wf(),
    {
        proof {
            use_type_invariant(&*self);
        }
        match self.side {
            Side::Left => {
                let n = self.items.len();
                if n == 0 {
                    return;
                }
                let i: usize = match self.choose_state {
                    Some(i) => if i >= n - 1 {
                        0
                    } else {
                        i + 1
                    },
                    None => 0,
                };
                self.choose_state = Some(i);
            },
            Side::Right => {
                let n = self.selected.len();
                if n == 0 {
                    return;
                }
                let i: usize = match self.selected_state {
                    Some(i) => if i >= n - 1 {
                        0
                    } else {
                        i + 1
                    },
                    None => 0,
                };
                self.selected_state = Some(i);
            },
        }
    }

    pub fn up(&mut self)
        ensures
            final(self)@ == old(self)@.up(),
            final(self)@.wf(),
    {
        proof {
            use_type_invariant(&*self);
        }
        match self.side {
            Side::Left => {
                let n = self.items.len();
                if n == 0 {
                    return;
                }
                let i: usize = match self.choose_state {
                    Some(i) => if i == 0 {
                        n - 1
                    } else {
                        i - 1
                    },
                    None => 0,
                };
                self.choose_state = Some(i);
            },
            Side::Right => {
                let n = self.selected.len();
                if n == 0 {
                    return;
                }
                let i: usize = match self.selected_state {
                    Some(i) => if i == 0 {
                        n - 1
                    } else {
                        i - 1
                    },
                    None => 0,
                };
                self.selected_state = Some(i);
            },
        }
    }

    pub fn right(&mut self)
        ensures
            final(self)@ == old(self)@.right(),
            final(self)@.wf(),
    {
        proof {
            use_type_invariant(&*self);
        }
        let n = self.selected.len();
        if n == 0 {
            return;
        }
        if let Some(i) = self.choose_state {
            self.last_chosen = i;
        }
        if self.side == Side::Left {
            let p: usize = if self.last_selected < n {
                self.last_selected
            } else {
                n - 1
            };
            self.selected_state = Some(p);
        }
        self.side = Side::Right;
        self.choose_state = None;
    }

    pub fn left(&mut self)
        ensures
            final(self)@ == old(self)@.left(),
            final(self)@.wf(),
    {
        proof {
            use_type_invariant(&*self);
        }
        if let Some(i) = self.selected_state {
            self.last_selected = i;
        }
        if self.side == Side::Right {
            let n = self.items.len();
            if n == 0 {
                self.choose_state = None;
            } else {
                let p: usize = if self.last_chosen < n {
                    self.last_chosen
                } else {
                    n - 1
                };
                self.choose_state = Some(p);
            }
        }
        self.side = Side::Left;
        self.selected_state = None;
    }

    pub fn select(&mut self)
        ensures
            final(self)@ == old(self)@.select(),
            final(self)@.wf(),
    {
        proof {
            use_type_invariant(&*self);
        }
        if self.side != Side::Left {
            return;
        }
        let i = match self.choose_state {
            Some(i) => i,
            None => return,
        };
        let ghost s = self.selected@;
        let n = self.selected.len();
        let mut p: usize = 0;
        while p < n && self.selected[p] < i
            invariant
                p <= n,
                n == s.len(),
                self.selected@ == s,
                forall|q: int| 0 <= q < p ==> s[q] < i,
            decreases n - p,
        {
            p = p + 1;
        }
        if p < n && self.selected[p] == i {
            assert(s.contains(i) && s[p as int] == i);
            return;
        }
        assert(forall|q: int| p <= q < n ==> s[q] > i) by {
            assert forall|q: int| p <= q < n implies s[q] > i by {
                if q > p {
                    assert(s[p as int] < s[q]);
                }
            }
        }
        assert(!s.contains(i));
        proof {
            lemma_insert_at_rank(s, i, p as int);
        }
        let cursor = self.selected_state;
        self.selected_state = None;
        let mut chosen: Vec<usize> = Vec::new();
        std::mem::swap(&mut chosen, &mut self.selected);
        chosen.insert(p, i);
        std::mem::swap(&mut chosen, &mut self.selected);
        self.selected_state = cursor;
    }

    pub fn remove(&mut self)
        ensures
            final(self)@ == old(self)@.remove(),
            final(self)@.wf(),
    {
        proof {
            use_type_invariant(&*self);
        }
        if self.side != Side::Right {
            return;
        }
        let p = match self.selected_state {
            Some(p) => p,
            None => return,
        };
        let n = self.selected.len();
        let cursor: Option<usize> = if n == 1 {
            None
        } else if p < n - 1 {
            Some(p)
        } else {
            Some(n - 2)
        };
        self.selected_state = None;
        let mut chosen: Vec<usize> = Vec::new();
        std::mem::swap(&mut chosen, &mut self.selected);
        chosen.remove(p);
        std::mem::swap(&mut chosen, &mut self.selected);
        self.selected_state = cursor;
    }

    /// The deck position shown on row `pos` of the selected pane.
    pub fn backing_index(&self, pos: usize) -> (r: Option<usize>)
        ensures
            r == (if pos < self@.selection.len() {
                Some(self@.selection[pos as int])
            } else {
                None
            }),
    {
        if pos < self.selected.len() {
            Some(self.selected[pos])
        } else {
            None
        }
    }

    pub fn items(&self) -> (r: &Vec<(String, String)>)
        ensures
            r@ == self@.cards,
    {
        &self.items
    }

    /// The chosen deck positions in ascending order: the selected pane's rows.
    pub fn selected(&self) -> (r: &Vec<usize>)
        ensures
            r@ == self@.selection,
    {
        &self.selected
    }

    pub fn side(&self) -> (r: Side)
        ensures
            r == self@.side,
    {
        self.side
    }

    pub fn choose_cursor(&self) -> (r: Option<usize>)
        ensures
            r == self@.choose_cursor,
    {
        self.choose_state
    }

    pub fn selected_cursor(&self) -> (r: Option<usize>)
        ensures
            r == self@.selected_cursor,
    {
        self.selected_state
    }
}

/// The list and the tab bar above it.
pub struct App {
    pub item_state: HiraganaListState,
    pub tabs: Vec<&'static str>,
    pub tab_index: usize,
}

impl App {
    pub fn new(items: Vec<(String, String)>) -> (r: Self)
        ensures
            r.item_state@ == initial_view(items@),
            r.tab_index == 0,
            r.tabs@.len() == 2,
            r.tabs@[0]@ == "Choose"@,
            r.tabs@[1]@ == "Practice"@,
    {
        let mut tabs: Vec<&'static str> = Vec::new();
        tabs.push("Choose");
        tabs.push("Practice");
        App { item_state: HiraganaListState::new(items), tabs, tab_index: 0 }
    }

    /// From the first tab to the second; elsewhere nothing changes.
    pub fn next_tab(&mut self)
        ensures
            final(self).tab_index == (if old(self).tab_index == 0 {
                1
            } else {
                old(self).tab_index
            }),
            final(self).item_state@ == old(self).item_state@,
            final(self).tabs@ == old(self).tabs@,
    {
        if self.tab_index == 0 {
            self.tab_index = 1;
        }
    }

    /// From the second tab to the first; elsewhere nothing changes.
    pub fn prev_tab(&mut self)
        ensures
            final(self).tab_index == (if old(self).tab_index == 1 {
                0
            } else {
                old(self).tab_index
            }),
            final(self).item_state@ == old(self).item_state@,
            final(self).tabs@ == old(self).tabs@,
    {
        if self.tab_index == 1 {
            self.tab_index = 0;
        }
    }
}


proof fn lemma_insert_ascending(s: Seq<usize>, i: usize)
    requires
        ascending(s),
        !s.contains(i),
    ensures
        ascending(insert_ascending(s, i)),
        insert_ascending(s, i).len() == s.len() + 1,
        forall|k: usize| #[trigger]
            insert_ascending(s, i).contains(k) <==> (s.contains(k) || k == i),
    decreases s.len(),
{
    let r = insert_ascending(s, i);
    if s.len() == 0 {
        assert(r[0] == i);
    } else if s.last() < i {
        assert forall|k: usize| #[trigger] r.contains(k) <==> (s.contains(k) || k == i) by {
            if s.contains(k) {
                let a = choose|a: int| 0 <= a < s.len() && s[a] == k;
                assert(r[a] == k);
            }
            if k == i {
                assert(r[s.len() as int] == i);
            }
        }
    } else {
        let d = s.drop_last();
        let last = s.last();
        assert(!d.contains(i));
        lemma_insert_ascending(d, i);
        let r2 = insert_ascending(d, i);
        assert(last != i);
        assert forall|a: int| 0 <= a < r2.len() implies r2[a] < last by {
            assert(r2.contains(r2[a]));
            if r2[a] != i {
                assert(d.contains(r2[a]));
                let b = choose|b: int| 0 <= b < d.len() && d[b] == r2[a];
                assert(s[b] < s[s.len() - 1]);
            }
        }
        assert forall|k: usize| #[trigger] r.contains(k) <==> (s.contains(k) || k == i) by {
            if s.contains(k) {
                let a = choose|a: int| 0 <= a < s.len() && s[a] == k;
                if a < d.len() {
                    assert(d[a] == k);
                    assert(d.contains(k));
                    assert(r2.contains(k));
                    let b = choose|b: int| 0 <= b < r2.len() && r2[b] == k;
                    assert(r[b] == k);
                } else {
                    assert(r[r2.len() as int] == k);
                }
            }
            if k == i {
                assert(r2.contains(i));
                let b = choose|b: int| 0 <= b < r2.len() && r2[b] == i;
                assert(r[b] == i);
            }
            if r.contains(k) {
                let b = choose|b: int| 0 <= b < r.len() && r[b] == k;
                if b < r2.len() {
                    assert(r2.contains(k));
                    if k != i {
                        assert(d.contains(k));
                        let c = choose|c: int| 0 <= c < d.len() && d[c] == k;
                        assert(s[c] == k);
                    }
                } else {
                    assert(s[s.len() - 1] == k);
                }
            }
        }
    }
}

proof fn lemma_ascending_from(s: Seq<usize>, p: int)
    requires
        ascending(s),
        0 <= p < s.len(),
    ensures
        s[p] >= p,
    decreases p,
{
    if p > 0 {
        lemma_ascending_from(s, p - 1);
    }
}

/// An ascending run of indices below `bound` has at most `bound` members.
proof fn lemma_ascending_len(s: Seq<usize>, bound: nat)
    requires
        ascending(s),
        forall|p: int| 0 <= p < s.len() ==> s[p] < bound,
    ensures
        s.len() <= bound,
{
    if s.len() > 0 {
        lemma_ascending_from(s, s.len() - 1);
    }
}

proof fn lemma_down_split(v: ListView, a: nat, b: nat)
    ensures
        v.down_times(a + b) == v.down_times(a).down_times(b),
    decreases a,
{
    if a > 0 {
        lemma_down_split(v.down(), (a - 1) as nat, b);
        assert((a + b - 1) as nat == (a - 1) as nat + b);
    }
}

proof fn lemma_up_split(v: ListView, a: nat, b: nat)
    ensures
        v.up_times(a + b) == v.up_times(a).up_times(b),
    decreases a,
{
    if a > 0 {
        lemma_up_split(v.up(), (a - 1) as nat, b);
        assert((a + b - 1) as nat == (a - 1) as nat + b);
    }
}

proof fn lemma_down_run(v: ListView, j: usize, k: nat)
    requires
        v.focused_cursor() == Some(j),
        j + k < v.focused_len(),
        v.focused_len() <= usize::MAX,
    ensures
        v.down_times(k) == v.with_focused_cursor(Some((j + k) as usize)),
    decreases k,
{
    if k > 0 {
        let w = v.down();
        assert(w == v.with_focused_cursor(Some((j + 1) as usize)));
        lemma_down_run(w, (j + 1) as usize, (k - 1) as nat);
        assert(w.with_focused_cursor(Some((j + k) as usize)) == v.with_focused_cursor(
            Some((j + k) as usize),
        ));
    }
}

proof fn lemma_up_run(v: ListView, j: usize, k: nat)
    requires
        v.focused_cursor() == Some(j),
        v.focused_len() > 0,
        v.focused_len() <= usize::MAX,
        k <= j,
    ensures
        v.up_times(k) == v.with_focused_cursor(Some((j - k) as usize)),
    decreases k,
{
    if k > 0 {
        let w = v.up();
        assert(w == v.with_focused_cursor(Some((j - 1) as usize)));
        lemma_up_run(w, (j - 1) as usize, (k - 1) as nat);
        assert(w.with_focused_cursor(Some((j - k) as usize)) == v.with_focused_cursor(
            Some((j - k) as usize),
        ));
    }
}

/// In a focused pane of `n` rows with its cursor set, `n` steps down bring the
/// list back to the state it started from, and so do `n` steps up.
pub proof fn lemma_full_turn(v: ListView)
    requires
        v.wf(),
        v.focused_len() > 0,
        v.focused_cursor() is Some,
    ensures
        v.down_times(v.focused_len()) == v,
        v.up_times(v.focused_len()) == v,
{
    let n = v.focused_len();
    let j = v.focused_cursor()->0;
    assert(j < n);
    lemma_ascending_len(v.selection, v.cards.len());
    assert(n <= usize::MAX);
    let top = v.with_focused_cursor(Some(0));
    let bottom = v.with_focused_cursor(Some((n - 1) as usize));
    let a = (n - 1 - j) as nat;
    // down: from j to the last row, over to the first, back to j
    lemma_down_run(v, j, a);
    assert(bottom.down() == top);
    assert(bottom.down().down_times(0) == top);
    assert(bottom.down_times(1) == top);
    lemma_down_run(top, 0, j as nat);
    assert(top.with_focused_cursor(Some(j)) == v);
    lemma_down_split(v, a, (1 + j) as nat);
    lemma_down_split(bottom, 1, j as nat);
    assert(a + (1 + j) == n);
    // up: from j to the first row, over to the last, back to j
    lemma_up_run(v, j, j as nat);
    assert(top.up() == bottom);
    assert(top.up().up_times(0) == bottom);
    assert(top.up_times(1) == bottom);
    lemma_up_run(bottom, (n - 1) as usize, a);
    assert(bottom.with_focused_cursor(Some(j)) == v);
    lemma_up_split(v, j as nat, (1 + a) as nat);
    lemma_up_split(top, 1, a);
    assert(j + (1 + a) == n);
}

/// In an empty focused pane a step up or down changes nothing.
pub proof fn lemma_empty_pane_still(v: ListView)
    requires
        v.focused_len() == 0,
    ensures
        v.down() == v,
        v.up() == v,
{
}

/// Choosing with the deck cursor on position `i` leaves `i` in the selection
/// on exactly one row, which shows the card at `i`; choosing again changes
/// nothing.
pub proof fn lemma_select_once(v: ListView, i: usize)
    requires
        v.wf(),
        v.side == Side::Left,
        v.choose_cursor == Some(i),
    ensures
        v.select().wf(),
        exists|p: int|
            0 <= p < v.select().selection.len() && v.select().selection[p] == i
                && v.select().pane()[p] == v.cards[i as int] && forall|q: int|
                0 <= q < v.select().selection.len() && v.select().selection[q] == i ==> q == p,
        v.select().select() == v.select(),
{
    let s = v.select();
    if !v.selection.contains(i) {
        lemma_insert_ascending(v.selection, i);
        assert forall|p: int| 0 <= p < s.selection.len() implies s.selection[p] < s.cards.len() by {
            assert(s.selection.contains(s.selection[p]));
        }
    }
    assert(s.selection.contains(i));
    let p = choose|p: int| 0 <= p < s.selection.len() && s.selection[p] == i;
    assert forall|q: int| 0 <= q < s.selection.len() && s.selection[q] == i implies q == p by {
        if q < p {
            assert(s.selection[q] < s.selection[p]);
        } else if q > p {
            assert(s.selection[p] < s.selection[q]);
        }
    }
    assert(s.pane()[p] == v.cards[i as int]);
}

/// Removing with the selected-pane cursor on row `p` takes out exactly the
/// deck position shown on that row: the pane loses that one row and the other
/// rows keep their order.
pub proof fn lemma_remove_row(v: ListView, p: usize)
    requires
        v.wf(),
        v.side == Side::Right,
        v.selected_cursor == Some(p),
    ensures
        v.remove().wf(),
        v.remove().selection == v.selection.remove(p as int),
        v.remove().selection.len() == v.selection.len() - 1,
        !v.remove().selection.contains(v.selection[p as int]),
        v.remove().pane() == v.pane().remove(p as int),
{
    let r = v.remove();
    let k = v.selection[p as int];
    if r.selection.contains(k) {
        let q = choose|q: int| 0 <= q < r.selection.len() && r.selection[q] == k;
        if q < p {
            assert(v.selection[q] < v.selection[p as int]);
        } else {
            assert(v.selection[p as int] < v.selection[q + 1]);
        }
    }
    assert(r.pane() =~= v.pane().remove(p as int));
}
} // verus!
