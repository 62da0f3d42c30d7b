//! The play session: selection, guesses, mistakes and the end of the game.

use crate::connections::{
    Connections, ConnectionsGrid, Card, Direction, GameError, cells_of, solution_cards,
    is_valid_puzzle, puzzle_groups, category_index, flat_index, in_bounds, moved, without,
};
use vstd::prelude::*;

verus! {

/// Wrong guesses a session allows before it is lost.
pub const MAX_MISTAKES: u8 = 4;

/// Where a session stands.
#[derive(Debug, Clone, Copy, PartialEq, Eq, Structural)]
pub enum GameStatus {
    InProgress,
    Won,
    Lost,
}

/// What a session is, as the contracts see it.
pub struct SessionView {
    pub puzzle: Connections,
    pub cells: Seq<Card>,
    pub cursor: (usize, usize),
    pub selected: Seq<(usize, usize)>,
    pub solved: Seq<usize>,
    pub mistakes: nat,
    pub status: GameStatus,
}

/// The category of the word in a cell.
pub open spec fn cell_category(m: SessionView, coord: (usize, usize)) -> Option<usize> {
    category_index(puzzle_groups(m.puzzle), m.cells[flat_index(coord)].content@)
}

/// A cell whose word belongs to a category that is not solved yet.
pub open spec fn cell_available(m: SessionView, coord: (usize, usize)) -> bool {
    match cell_category(m, coord) {
        Some(k) => !m.solved.contains(k),
        None => false,
    }
}

/// The invariant of a session.
pub open spec fn session_wf(m: SessionView) -> bool {
    &&& is_valid_puzzle(m.puzzle)
    &&& m.cells.len() == 16
    &&& m.cells.to_multiset() == solution_cards(m.puzzle).to_multiset()
    &&& in_bounds(m.cursor)
    &&& m.selected.len() <= 4
    &&& m.selected.no_duplicates()
    &&& forall|i: int|
        0 <= i < m.selected.len() ==> in_bounds(#[trigger] m.selected[i]) && cell_available(
            m,
            m.selected[i],
        )
    &&& m.solved.len() <= 4
    &&& m.solved.no_duplicates()
    &&& forall|i: int| 0 <= i < m.solved.len() ==> #[trigger] m.solved[i] < 4
    &&& m.mistakes <= MAX_MISTAKES
    &&& (m.status == GameStatus::Won <==> m.solved.len() == 4)
    &&& (m.status == GameStatus::Lost <==> m.mistakes == MAX_MISTAKES)
}

/// A fresh session on a puzzle whose cards are laid out as `cells`.
pub open spec fn fresh_session(puzzle: Connections, cells: Seq<Card>) -> SessionView {
    SessionView {
        puzzle,
        cells,
        cursor: (0usize, 0usize),
        selected: Seq::empty(),
        solved: Seq::empty(),
        mistakes: 0,
        status: GameStatus::InProgress,
    }
}

/// Moving the cursor.
pub open spec fn move_step(m: SessionView, dir: Direction) -> (SessionView, Result<(), GameError>) {
    if m.status != GameStatus::InProgress {
        (m, Err(GameError::SessionFinished))
    } else {
        (SessionView { cursor: moved(m.cursor, dir), ..m }, Ok(()))
    }
}

/// Toggling the selection of a cell.
pub open spec fn toggle_step(m: SessionView, coord: (usize, usize)) -> (
    SessionView,
    Result<(), GameError>,
) {
    if m.status != GameStatus::InProgress {
        (m, Err(GameError::SessionFinished))
    } else if !in_bounds(coord) {
        (m, Err(GameError::OutOfBounds))
    } else if m.selected.contains(coord) {
        (SessionView { selected: without(m.selected, coord), ..m }, Ok(()))
    } else if m.selected.len() >= 4 {
        (m, Err(GameError::SelectionFull))
    } else {
        match cell_category(m, coord) {
            None => (m, Err(GameError::UnknownWord)),
            Some(k) => if m.solved.contains(k) {
                (m, Err(GameError::CellUnavailable))
            } else {
                (SessionView { selected: m.selected.push(coord), ..m }, Ok(()))
            },
        }
    }
}

/// Emptying the selection.
pub open spec fn clear_step(m: SessionView) -> (SessionView, Result<(), GameError>) {
    if m.status != GameStatus::InProgress {
        (m, Err(GameError::SessionFinished))
    } else {
        (SessionView { selected: Seq::empty(), ..m }, Ok(()))
    }
}

/// The category of the `i`-th selected cell.
pub open spec fn selected_category(m: SessionView, i: int) -> Option<usize> {
    cell_category(m, m.selected[i])
}

/// Every selected word belongs to a category of the puzzle.
pub open spec fn guess_known(m: SessionView) -> bool {
    selected_category(m, 0) is Some && selected_category(m, 1) is Some && selected_category(m, 2) is Some
        && selected_category(m, 3) is Some
}

/// The four selected words share one category that is not solved yet.
pub open spec fn guess_correct(m: SessionView) -> bool {
    &&& selected_category(m, 0) == selected_category(m, 1)
    &&& selected_category(m, 0) == selected_category(m, 2)
    &&& selected_category(m, 0) == selected_category(m, 3)
    &&& !m.solved.contains(selected_category(m, 0)->Some_0)
}

/// Submitting the selection as a guess; `Ok(true)` for a correct guess,
/// `Ok(false)` for a mistake.
pub open spec fn submit_step(m: SessionView) -> (SessionView, Result<bool, GameError>) {
    if m.status != GameStatus::InProgress {
        (m, Err(GameError::SessionFinished))
    } else if m.selected.len() != 4 {
        (m, Err(GameError::IncompleteSelection))
    } else if !guess_known(m) {
        (m, Err(GameError::UnknownWord))
    } else if guess_correct(m) {
        let solved = m.solved.push(selected_category(m, 0)->Some_0);
        (
            SessionView {
                selected: Seq::empty(),
                solved,
                status: if solved.len() == 4 {
                    GameStatus::Won
                } else {
                    GameStatus::InProgress
                },
                ..m
            },
            Ok(true),
        )
    } else {
        let mistakes = m.mistakes + 1;
        (
            SessionView {
                selected: Seq::empty(),
                mistakes,
                status: if mistakes == MAX_MISTAKES {
                    GameStatus::Lost
                } else {
                    GameStatus::InProgress
                },
                ..m
            },
            Ok(false),
        )
    }
}

proof fn lemma_without(s: Seq<(usize, usize)>, x: (usize, usize))
    ensures
        without(s, x).len() <= s.len(),
        forall|i: int| 0 <= i < without(s, x).len() ==> s.contains(#[trigger] without(s, x)[i]),
        !without(s, x).contains(x),
        s.no_duplicates() ==> without(s, x).no_duplicates(),
    decreases s.len(),
{
    if s.len() > 0 {
        let d = s.drop_last();
        lemma_without(d, x);
        assert forall|i: int| 0 <= i < without(d, x).len() implies s.contains(
            #[trigger] without(d, x)[i],
        ) by {
            let j = choose|j: int| 0 <= j < d.len() && d[j] == without(d, x)[i];
            assert(s[j] == d[j]);
        }
        if s.last() != x {
            let w = without(d, x);
            assert(s[s.len() - 1] == s.last());
            assert forall|i: int| 0 <= i < w.push(s.last()).len() implies s.contains(
                #[trigger] w.push(s.last())[i],
            ) by {
                if i < w.len() {
                    assert(w.push(s.last())[i] == w[i]);
                }
            }
            if s.no_duplicates() {
                assert(d.no_duplicates()) by {
                    assert forall|a: int, b: int| 0 <= a < d.len() && 0 <= b < d.len() && a != b implies d[a] != d[b] by {
                        assert(d[a] == s[a] && d[b] == s[b]);
                    }
                }
                assert(!w.contains(s.last())) by {
                    if w.contains(s.last()) {
                        let j = choose|j: int| 0 <= j < w.len() && w[j] == s.last();
                        assert(d.contains(w[j]));
                        let t = choose|t: int| 0 <= t < d.len() && d[t] == w[j];
                        assert(s[t] == s[s.len() - 1]);
                    }
                }
                assert forall|a: int, b: int|
                    0 <= a < w.push(s.last()).len() && 0 <= b < w.push(s.last()).len() && a != b implies
                    w.push(s.last())[a] != w.push(s.last())[b] by {
                    if a < w.len() && b < w.len() {
                        assert(w.push(s.last())[a] == w[a]);
                        assert(w.push(s.last())[b] == w[b]);
                    } else if a < w.len() {
                        assert(w.push(s.last())[a] == w[a]);
                    } else if b < w.len() {
                        assert(w.push(s.last())[b] == w[b]);
                    }
                }
            }
            assert(!w.push(s.last()).contains(x)) by {
                if w.push(s.last()).contains(x) {
                    let j = choose|j: int| 0 <= j < w.push(s.last()).len() && w.push(s.last())[j] == x;
                    if j < w.len() {
                        assert(w.push(s.last())[j] == w[j]);
                    }
                }
            }
        } else {
            if s.no_duplicates() {
                assert(d.no_duplicates()) by {
                    assert forall|a: int, b: int| 0 <= a < d.len() && 0 <= b < d.len() && a != b implies d[a] != d[b] by {
                        assert(d[a] == s[a] && d[b] == s[b]);
                    }
                }
            }
        }
    }
}

proof fn lemma_toggle_wf(m: SessionView, coord: (usize, usize))
    requires
        session_wf(m),
    ensures
        session_wf(toggle_step(m, coord).0),
{
    let n = toggle_step(m, coord).0;
    if m.status == GameStatus::InProgress && in_bounds(coord) {
        if m.selected.contains(coord) {
            lemma_without(m.selected, coord);
            assert forall|i: int| 0 <= i < n.selected.len() implies in_bounds(
                #[trigger] n.selected[i],
            ) && cell_available(n, n.selected[i]) by {
                assert(m.selected.contains(n.selected[i]));
                let j = choose|j: int| 0 <= j < m.selected.len() && m.selected[j] == n.selected[i];
                assert(in_bounds(m.selected[j]) && cell_available(m, m.selected[j]));
            }
        } else if m.selected.len() < 4 {
            if n != m {
                assert forall|i: int| 0 <= i < n.selected.len() implies in_bounds(
                    #[trigger] n.selected[i],
                ) && cell_available(n, n.selected[i]) by {
                    if i < m.selected.len() {
                        assert(n.selected[i] == m.selected[i]);
                    }
                }
                assert(n.selected.no_duplicates()) by {
                    assert forall|a: int, b: int|
                        0 <= a < n.selected.len() && 0 <= b < n.selected.len() && a != b implies n.selected[a]
                        != n.selected[b] by {
                        if a < m.selected.len() && b < m.selected.len() {
                        } else if a < m.selected.len() {
                            assert(n.selected[a] == m.selected[a]);
                        } else if b < m.selected.len() {
                            assert(n.selected[b] == m.selected[b]);
                        }
                    }
                }
            }
        }
    }
}

proof fn lemma_submit_wf(m: SessionView)
    requires
        session_wf(m),
    ensures
        session_wf(submit_step(m).0),
{
    let n = submit_step(m).0;
    if m.status == GameStatus::InProgress && m.selected.len() == 4 && guess_known(m) {
        if guess_correct(m) {
            let k = selected_category(m, 0)->Some_0;
            assert(k < 4);
            assert(n.solved == m.solved.push(k));
            assert(n.solved.no_duplicates()) by {
                assert forall|a: int, b: int|
                    0 <= a < n.solved.len() && 0 <= b < n.solved.len() && a != b implies n.solved[a]
                    != n.solved[b] by {
                    if a < m.solved.len() && b < m.solved.len() {
                    } else if a < m.solved.len() {
                        assert(n.solved[a] == m.solved[a]);
                    } else if b < m.solved.len() {
                        assert(n.solved[b] == m.solved[b]);
                    }
                }
            }
            assert forall|i: int| 0 <= i < n.solved.len() implies #[trigger] n.solved[i] < 4 by {
                if i < m.solved.len() {
                    assert(n.solved[i] == m.solved[i]);
                }
            }
        }
    }
}

/// Every step keeps the invariant of a session, so a session is won exactly
/// when all four categories are solved and lost exactly when the mistakes
/// reach the limit, never both; and once a session is won or lost, no step
/// changes it any more.
pub proof fn lemma_status_rules(m: SessionView, coord: (usize, usize), dir: Direction)
    requires
        session_wf(m),
    ensures
        session_wf(toggle_step(m, coord).0),
        session_wf(submit_step(m).0),
        session_wf(clear_step(m).0),
        session_wf(move_step(m, dir).0),
        m.status == GameStatus::Won <==> m.solved.len() == 4,
        m.status == GameStatus::Lost <==> m.mistakes == MAX_MISTAKES,
        !(m.status == GameStatus::Won && m.status == GameStatus::Lost),
        m.status != GameStatus::InProgress ==> toggle_step(m, coord) == (m, Err::<(), GameError>(GameError::SessionFinished))
            && submit_step(m) == (m, Err::<bool, GameError>(GameError::SessionFinished))
            && clear_step(m) == (m, Err::<(), GameError>(GameError::SessionFinished))
            && move_step(m, dir) == (m, Err::<(), GameError>(GameError::SessionFinished)),
{
    lemma_toggle_wf(m, coord);
    lemma_submit_wf(m);
}

/// Toggling the same cell twice, starting with nothing selected, gives back
/// the session as it was.
pub proof fn lemma_toggle_twice(m: SessionView, coord: (usize, usize))
    requires
        session_wf(m),
        m.selected.len() == 0,
    ensures
        toggle_step(toggle_step(m, coord).0, coord).0 == m,
{
    let n = toggle_step(m, coord).0;
    if n != m {
        assert(n.selected == seq![coord]);
        assert(n.selected.contains(coord)) by {
            assert(n.selected[0] == coord);
        }
        assert(n.selected.last() == coord);
        assert(n.selected.drop_last() =~= Seq::<(usize, usize)>::empty());
        assert(without(n.selected.drop_last(), coord) =~= Seq::<(usize, usize)>::empty());
        assert(without(n.selected, coord) =~= m.selected);
        assert(toggle_step(n, coord).0 =~= m);
    }
}

/// With four cells selected, selecting another cell fails with
/// `SelectionFull` and changes nothing.
pub proof fn lemma_fifth_cell(m: SessionView, coord: (usize, usize))
    requires
        session_wf(m),
        m.status == GameStatus::InProgress,
        m.selected.len() == 4,
        in_bounds(coord),
        !m.selected.contains(coord),
    ensures
        toggle_step(m, coord) == (m, Err::<(), GameError>(GameError::SelectionFull)),
{
}

/// A guess whose four words share one category solves that category: it is
/// added to the solved ones, where it was not before, the mistakes stay as
/// they were and the selection is emptied.
pub proof fn lemma_correct_guess(m: SessionView, k: usize)
    requires
        session_wf(m),
        m.status == GameStatus::InProgress,
        m.selected.len() == 4,
        forall|i: int| 0 <= i < 4 ==> #[trigger] selected_category(m, i) == Some(k),
    ensures
        submit_step(m).1 == Ok::<bool, GameError>(true),
        !m.solved.contains(k),
        submit_step(m).0.solved == m.solved.push(k),
        submit_step(m).0.mistakes == m.mistakes,
        submit_step(m).0.selected.len() == 0,
{
    assert(selected_category(m, 0) == Some(k));
    assert(selected_category(m, 1) == Some(k));
    assert(selected_category(m, 2) == Some(k));
    assert(selected_category(m, 3) == Some(k));
    assert(cell_available(m, m.selected[0]));
}

/// A guess whose words span two or more categories costs exactly one
/// mistake, solves nothing and empties the selection.
pub proof fn lemma_wrong_guess(m: SessionView, i: int, j: int)
    requires
        session_wf(m),
        m.status == GameStatus::InProgress,
        m.selected.len() == 4,
        guess_known(m),
        0 <= i < 4,
        0 <= j < 4,
        selected_category(m, i) != selected_category(m, j),
    ensures
        submit_step(m).1 == Ok::<bool, GameError>(false),
        submit_step(m).0.mistakes == m.mistakes + 1,
        submit_step(m).0.solved == m.solved,
        submit_step(m).0.selected.len() == 0,
{
}

/// A play session on one puzzle.
pub struct App {
    solution: Connections,
    mistakes: u8,
    status: GameStatus,
    solved: Vec<usize>,
    content: ConnectionsGrid,
}

impl View for App {
    type V = SessionView;

    closed spec fn view(&self) -> SessionView {
        SessionView {
            puzzle: self.solution,
            cells: cells_of(self.content.grid),
            cursor: self.content.cursor,
            selected: self.content.selected_cells@,
            solved: self.solved@,
            mistakes: self.mistakes as nat,
            status: self.status,
        }
    }
}

fn index_in(v: &Vec<usize>, k: usize) -> (r: bool)
    ensures
        r == v@.contains(k),
{
    let mut i: usize = 0;
    while i < v.len()
        invariant
            i <= v@.len(),
            forall|j: int| 0 <= j < i ==> v@[j] != k,
        decreases v@.len() - i,
    {
        if v[i] == k {
            return true;
        }
        i = i + 1;
    }
    false
}

fn copy_indices(v: &Vec<usize>) -> (r: Vec<usize>)
    ensures
        r@ == v@,
{
    let mut r: Vec<usize> = Vec::new();
    let mut i: usize = 0;
    while i < v.len()
        invariant
            i <= v@.len(),
            r@ == v@.take(i as int),
        decreases v@.len() - i,
    {
        r.push(v[i]);
        i = i + 1;
        assert(r@ =~= v@.take(i as int));
    }
    assert(r@ =~= v@);
    r
}

impl App {
    /// The invariant of a session.
    pub open spec fn wf(&self) -> bool {
        session_wf(self@)
    }

    /// Starts a session: the puzzle's cards are laid out at random, nothing is
    /// selected or solved and no mistake is made. `MalformedPuzzle` where a
    /// word is empty or a word or a title stands twice.
    pub fn new(puzzle: Connections) -> (r: Result<App, GameError>)
        ensures
            r is Ok <==> is_valid_puzzle(puzzle),
            !is_valid_puzzle(puzzle) ==> r == Err::<App, GameError>(GameError::MalformedPuzzle),
            r matches Ok(app) ==> app.wf() && app@ == fresh_session(puzzle, app@.cells),
    {
        if !puzzle.is_valid() {
            return Err(GameError::MalformedPuzzle);
        }
        let content = ConnectionsGrid::new(puzzle.duplicate());
        let app = App {
            solution: puzzle,
            mistakes: 0,
            status: GameStatus::InProgress,
            solved: Vec::new(),
            content,
        };
        assert(app@.selected =~= Seq::<(usize, usize)>::empty());
        assert(app@.solved =~= Seq::<usize>::empty());
        Ok(app)
    }

    fn lookup(&self, coord: (usize, usize)) -> (r: Result<usize, GameError>)
        requires
            in_bounds(coord),
        ensures
            r == match cell_category(self@, coord) {
                Some(k) => Ok::<usize, GameError>(k),
                None => Err::<usize, GameError>(GameError::UnknownWord),
            },
    {
        assert(cells_of(self.content.grid)[flat_index(coord)] == self.content.grid[coord.0 as int][coord.1 as int]);
        self.solution.category_of(&self.content.grid[coord.0][coord.1].content)
    }

    /// Moves the cursor one cell, clamped to the grid.
    pub fn move_cursor(&mut self, dir: Direction) -> (r: Result<(), GameError>)
        requires
            old(self).wf(),
        ensures
            final(self).wf(),
            (final(self)@, r) == move_step(old(self)@, dir),
    {
        proof {
            lemma_status_rules(self@, (0, 0), dir);
        }
        match self.status {
            GameStatus::InProgress => {},
            _ => return Err(GameError::SessionFinished),
        }
        self.content.move_cursor(dir);
        Ok(())
    }

    /// Selects a cell, or takes it out of the selection where it is in it.
    pub fn toggle_selection(&mut self, row: usize, col: usize) -> (r: Result<(), GameError>)
        requires
            old(self).wf(),
        ensures
            final(self).wf(),
            (final(self)@, r) == toggle_step(old(self)@, (row, col)),
    {
        proof {
            lemma_status_rules(self@, (row, col), Direction::Up);
        }
        match self.status {
            GameStatus::InProgress => {},
            _ => return Err(GameError::SessionFinished),
        }
        if !(row < 4 && col < 4) {
            return Err(GameError::OutOfBounds);
        }
        let coord = (row, col);
        if self.content.is_selected(coord) {
            self.content.deselect(coord);
            return Ok(());
        }
        if self.content.selected_cells.len() >= 4 {
            return Err(GameError::SelectionFull);
        }
        let k = match self.lookup(coord) {
            Ok(k) => k,
            Err(e) => return Err(e),
        };
        if index_in(&self.solved, k) {
            return Err(GameError::CellUnavailable);
        }
        self.content.selected_cells.push(coord);
        Ok(())
    }

    /// Empties the selection.
    pub fn clear_selection(&mut self) -> (r: Result<(), GameError>)
        requires
            old(self).wf(),
        ensures
            final(self).wf(),
            (final(self)@, r) == clear_step(old(self)@),
    {
        proof {
            lemma_status_rules(self@, (0, 0), Direction::Up);
        }
        match self.status {
            GameStatus::InProgress => {},
            _ => return Err(GameError::SessionFinished),
        }
        self.content.clear_selection();
        assert(self@.selected =~= Seq::<(usize, usize)>::empty());
        Ok(())
    }

    /// Submits the four selected cells as a guess: `Ok(true)` where their
    /// words share a category not solved yet, which is then solved;
    /// `Ok(false)` for a mistake.
    pub fn submit_guess(&mut self) -> (r: Result<bool, GameError>)
        requires
            old(self).wf(),
        ensures
            final(self).wf(),
            (final(self)@, r) == submit_step(old(self)@),
    {
        proof {
            lemma_status_rules(self@, (0, 0), Direction::Up);
        }
        match self.status {
            GameStatus::InProgress => {},
            _ => return Err(GameError::SessionFinished),
        }
        if self.content.selected_cells.len() != 4 {
            return Err(GameError::IncompleteSelection);
        }
        assert(in_bounds(self@.selected[0]) && in_bounds(self@.selected[1]));
        assert(in_bounds(self@.selected[2]) && in_bounds(self@.selected[3]));
        let k0 = match self.lookup(self.content.selected_cells[0]) {
            Ok(k) => k,
            Err(e) => return Err(e),
        };
        let k1 = match self.lookup(self.content.selected_cells[1]) {
            Ok(k) => k,
            Err(e) => return Err(e),
        };
        let k2 = match self.lookup(self.content.selected_cells[2]) {
            Ok(k) => k,
            Err(e) => return Err(e),
        };
        let k3 = match self.lookup(self.content.selected_cells[3]) {
            Ok(k) => k,
            Err(e) => return Err(e),
        };
        if k0 == k1 && k0 == k2 && k0 == k3 && !index_in(&self.solved, k0) {
            self.solved.push(k0);
            self.content.clear_selection();
            if self.solved.len() == 4 {
                self.status = GameStatus::Won;
            }
            assert(self@.selected =~= Seq::<(usize, usize)>::empty());
            Ok(true)
        } else {
            self.mistakes = self.mistakes + 1;
            self.content.clear_selection();
            if self.mistakes == MAX_MISTAKES {
                self.status = GameStatus::Lost;
            }
            assert(self@.selected =~= Seq::<(usize, usize)>::empty());
            Ok(false)
        }
    }

    /// Lays the cards out anew at random and empties the selection; what is
    /// solved and the mistakes stay.
    pub fn reshuffle(&mut self) -> (r: Result<(), GameError>)
        requires
            old(self).wf(),
        ensures
            final(self).wf(),
            old(self)@.status != GameStatus::InProgress ==> final(self)@ == old(self)@ && r
                == Err::<(), GameError>(GameError::SessionFinished),
            old(self)@.status == GameStatus::InProgress ==> r == Ok::<(), GameError>(())
                && final(self)@ == (SessionView {
                cells: final(self)@.cells,
                selected: Seq::empty(),
                ..old(self)@
            }) && final(self)@.cells.to_multiset() == old(self)@.cells.to_multiset(),
    {
        match self.status {
            GameStatus::InProgress => {},
            _ => return Err(GameError::SessionFinished),
        }
        self.content.clear_selection();
        self.content.shuffle();
        assert(self@.selected =~= Seq::<(usize, usize)>::empty());
        Ok(())
    }

    /// Where the session stands.
    pub fn status(&self) -> (r: GameStatus)
        ensures
            r == self@.status,
    {
        self.status
    }

    /// The wrong guesses made so far.
    pub fn mistakes_made(&self) -> (r: u8)
        ensures
            r == self@.mistakes,
    {
        self.mistakes
    }

    /// The wrong guesses left before the session is lost.
    pub fn mistakes_remaining(&self) -> (r: u8)
        requires
            self.wf(),
        ensures
            r == MAX_MISTAKES - self@.mistakes,
    {
        MAX_MISTAKES - self.mistakes
    }

    /// The indices of the solved categories, in the order they were solved.
    pub fn solved_categories(&self) -> (r: Vec<usize>)
        ensures
            r@ == self@.solved,
    {
        copy_indices(&self.solved)
    }

    /// The puzzle being played.
    pub fn puzzle(&self) -> (r: &Connections)
        ensures
            *r == self@.puzzle,
    {
        &self.solution
    }

    /// The solved category that owns a cell, if any; `OutOfBounds` where the
    /// cell is off the grid.
    pub fn solved_category_at(&self, row: usize, col: usize) -> (r: Result<Option<usize>, GameError>)
        ensures
            !in_bounds((row, col)) ==> r == Err::<Option<usize>, GameError>(GameError::OutOfBounds),
            in_bounds((row, col)) ==> r == Ok::<Option<usize>, GameError>(
                match cell_category(self@, (row, col)) {
                    Some(k) => if self@.solved.contains(k) {
                        Some(k)
                    } else {
                        None
                    },
                    None => None,
                },
            ),
    {
        if !(row < 4 && col < 4) {
            return Err(GameError::OutOfBounds);
        }
        match self.lookup((row, col)) {
            Ok(k) => if index_in(&self.solved, k) {
                Ok(Some(k))
            } else {
                Ok(None)
            },
            Err(_) => Ok(None),
        }
    }

    /// The grid as it stands.
    pub fn grid(&self) -> (r: &ConnectionsGrid)
        ensures
            cells_of(r.grid) == self@.cells,
            r.cursor == self@.cursor,
            r.selected_cells@ == self@.selected,
    {
        &self.content
    }
}

/// The on-screen measures of the grid: the size of a cell and the number of
/// columns and rows.
pub struct Grid {
    pub cell_size: usize,
    pub cols: usize,
    pub rows: usize,
}

impl Default for Grid {
    fn default() -> (r: Self)
        ensures
            r.cell_size == 3 && r.cols == 4 && r.rows == 4,
    {
        Grid { cell_size: 3, cols: 4, rows: 4 }
    }
}

} // verus!
