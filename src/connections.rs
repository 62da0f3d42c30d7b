//! Puzzle data and the grid engine.

use rand::seq::SliceRandom;
use vstd::prelude::*;

verus! {

broadcast use vstd::array::group_array_axioms;

/// Positional rank of a puzzle's categories, used for styling only.
#[allow(non_camel_case_types)]
#[derive(Debug, Clone, Copy, PartialEq, Eq, Structural)]
pub enum Difficulty {
    STRAIGHTFORWARD,
    MEDIUM,
    HARD,
    TRICKY,
}

/// The difficulty of the category at index `k` of a puzzle.
pub open spec fn difficulty_of(k: int) -> Difficulty {
    if k == 0 {
        Difficulty::STRAIGHTFORWARD
    } else if k == 1 {
        Difficulty::MEDIUM
    } else if k == 2 {
        Difficulty::HARD
    } else {
        Difficulty::TRICKY
    }
}

/// Errors of the puzzle model and of the game.
#[derive(Debug, Clone, Copy, PartialEq, Eq, Structural)]
pub enum GameError {
    MalformedPuzzle,
    OutOfBounds,
    UnknownWord,
    SelectionFull,
    CellUnavailable,
    IncompleteSelection,
    SessionFinished,
}

/// One word of the puzzle with its place in the solution ordering.
#[derive(Debug, Clone, Default, PartialEq)]
pub struct Card {
    pub content: String,
    pub position: u8,
}

impl Card {
    /// A field-for-field copy of the card.
    pub fn duplicate(&self) -> (r: Card)
        ensures
            r == *self,
    {
        Card { content: self.content.clone(), position: self.position }
    }
}

/// A titled group of four words.
#[derive(Debug, Clone, Default)]
pub struct Category {
    pub title: String,
    pub cards: [Card; 4],
}

impl Category {
    /// A category with an empty title and four empty cards.
    pub fn empty() -> (r: Category)
        ensures
            r.title@.len() == 0,
            forall|j: int| 0 <= j < 4 ==> (#[trigger] r.cards[j]).content@.len() == 0
                && r.cards[j].position == 0,
    {
        Category {
            title: String::new(),
            cards: [
                Card { content: String::new(), position: 0 },
                Card { content: String::new(), position: 0 },
                Card { content: String::new(), position: 0 },
                Card { content: String::new(), position: 0 },
            ],
        }
    }

    /// A field-for-field copy of the category.
    pub fn duplicate(&self) -> (r: Category)
        ensures
            r == *self,
    {
        let r = Category {
            title: self.title.clone(),
            cards: [
                self.cards[0].duplicate(),
                self.cards[1].duplicate(),
                self.cards[2].duplicate(),
                self.cards[3].duplicate(),
            ],
        };
        assert(r.cards =~= self.cards);
        r
    }
}

/// One day's solved puzzle: four categories in the order of the source.
#[derive(Debug, Clone)]
pub struct Connections {
    pub id: u32,
    pub print_date: String,
    pub editor: String,
    pub categories: [Category; 4],
}

/// The sixteen cards of a puzzle in category order.
pub open spec fn solution_cards(c: Connections) -> Seq<Card> {
    Seq::new(16, |k: int| c.categories[k / 4].cards[k % 4])
}

/// The word texts of one category, in order.
pub open spec fn group_words(cat: Category) -> Seq<Seq<char>> {
    Seq::new(4, |j: int| cat.cards[j].content@)
}

/// The word texts of a puzzle, by category.
pub open spec fn puzzle_groups(c: Connections) -> Seq<Seq<Seq<char>>> {
    Seq::new(4, |k: int| group_words(c.categories[k]))
}

/// A puzzle that a session can be played on: no empty word, no word twice,
/// no title twice.
pub open spec fn is_valid_puzzle(c: Connections) -> bool {
    &&& forall|k: int| 0 <= k < 16 ==> (#[trigger] solution_cards(c)[k]).content@.len() > 0
    &&& forall|i: int, j: int|
        0 <= i < j < 16 ==> (#[trigger] solution_cards(c)[i]).content@ != (
        #[trigger] solution_cards(c)[j]).content@
    &&& forall|i: int, j: int|
        0 <= i < j < 4 ==> (#[trigger] c.categories[i]).title@ != (#[trigger] c.categories[j]).title@
}

/// Whether `w` is one of the four words of a group.
pub open spec fn group_holds(g: Seq<Seq<char>>, w: Seq<char>) -> bool {
    g[0] == w || g[1] == w || g[2] == w || g[3] == w
}

/// The first category, by index, whose words include `w`.
pub open spec fn category_index(groups: Seq<Seq<Seq<char>>>, w: Seq<char>) -> Option<usize> {
    if group_holds(groups[0], w) {
        Some(0usize)
    } else if group_holds(groups[1], w) {
        Some(1usize)
    } else if group_holds(groups[2], w) {
        Some(2usize)
    } else if group_holds(groups[3], w) {
        Some(3usize)
    } else {
        None
    }
}

/// Whether all strings of `v` are pairwise different.
pub open spec fn all_distinct(v: Seq<String>) -> bool {
    forall|i: int, j: int| 0 <= i < j < v.len() ==> (#[trigger] v[i])@ != (#[trigger] v[j])@
}

fn texts_distinct(v: &Vec<String>) -> (r: bool)
    ensures
        r == all_distinct(v@),
{
    let n = v.len();
    let mut i: usize = 0;
    while i < n
        invariant
            n == v.len(),
            i <= n,
            forall|a: int, b: int| 0 <= a < b < v.len() && a < i ==> (#[trigger] v@[a])@ != (
            #[trigger] v@[b])@,
        decreases n - i,
    {
        let mut j: usize = i + 1;
        while j < n
            invariant
                n == v.len(),
                i < n,
                i + 1 <= j <= n,
                forall|a: int, b: int| 0 <= a < b < v.len() && a < i ==> (#[trigger] v@[a])@ != (
                #[trigger] v@[b])@,
                forall|b: int| i < b < j ==> v@[i as int]@ != (#[trigger] v@[b])@,
            decreases n - j,
        {
            if v[i] == v[j] {
                return false;
            }
            j = j + 1;
        }
        i = i + 1;
    }
    true
}

fn category_holds(cat: &Category, w: &String) -> (r: bool)
    ensures
        r == group_holds(group_words(*cat), w@),
{
    cat.cards[0].content == *w || cat.cards[1].content == *w || cat.cards[2].content == *w
        || cat.cards[3].content == *w
}

impl Connections {
    /// A field-for-field copy of the puzzle.
    pub fn duplicate(&self) -> (r: Connections)
        ensures
            r == *self,
    {
        let r = Connections {
            id: self.id,
            print_date: self.print_date.clone(),
            editor: self.editor.clone(),
            categories: [
                self.categories[0].duplicate(),
                self.categories[1].duplicate(),
                self.categories[2].duplicate(),
                self.categories[3].duplicate(),
            ],
        };
        assert(r.categories =~= self.categories);
        r
    }

    /// The index of the first category that holds `word`; `UnknownWord` where
    /// none does.
    pub fn category_of(&self, word: &String) -> (r: Result<usize, GameError>)
        ensures
            r == match category_index(puzzle_groups(*self), word@) {
                Some(k) => Ok::<usize, GameError>(k),
                None => Err::<usize, GameError>(GameError::UnknownWord),
            },
    {
        let ghost g = puzzle_groups(*self);
        assert(g[0] == group_words(self.categories[0]));
        assert(g[1] == group_words(self.categories[1]));
        assert(g[2] == group_words(self.categories[2]));
        assert(g[3] == group_words(self.categories[3]));
        if category_holds(&self.categories[0], word) {
            Ok(0)
        } else if category_holds(&self.categories[1], word) {
            Ok(1)
        } else if category_holds(&self.categories[2], word) {
            Ok(2)
        } else if category_holds(&self.categories[3], word) {
            Ok(3)
        } else {
            Err(GameError::UnknownWord)
        }
    }

    /// Whether a session can be played on this puzzle: every word non-empty,
    /// no word twice, no category title twice.
    pub fn is_valid(&self) -> (r: bool)
        ensures
            r == is_valid_puzzle(*self),
    {
        let mut words: Vec<String> = Vec::new();
        let mut k: usize = 0;
        while k < 16
            invariant
                k <= 16,
                words@.len() == k,
                forall|i: int| 0 <= i < k ==> #[trigger] words@[i] == solution_cards(*self)[i].content,
            decreases 16 - k,
        {
            words.push(self.categories[k / 4].cards[k % 4].content.clone());
            k = k + 1;
        }
        let mut i: usize = 0;
        while i < 16
            invariant
                i <= 16,
                words@.len() == 16,
                forall|j: int| 0 <= j < 16 ==> #[trigger] words@[j] == solution_cards(*self)[j].content,
                forall|j: int| 0 <= j < i ==> (#[trigger] solution_cards(*self)[j]).content@.len() > 0,
            decreases 16 - i,
        {
            if words[i].as_str().is_empty() {
                return false;
            }
            i = i + 1;
        }
        if !texts_distinct(&words) {
            assert(!is_valid_puzzle(*self)) by {
                let (a, b) = choose|a: int, b: int| 0 <= a < b < words@.len() && (#[trigger] words@[a])@ == (#[trigger] words@[b])@;
                assert(solution_cards(*self)[a].content@ == solution_cards(*self)[b].content@);
            }
            return false;
        }
        let titles = vec![
            self.categories[0].title.clone(),
            self.categories[1].title.clone(),
            self.categories[2].title.clone(),
            self.categories[3].title.clone(),
        ];
        assert(forall|j: int| 0 <= j < 4 ==> #[trigger] titles@[j] == self.categories[j].title);
        let r = texts_distinct(&titles);
        if !r {
            assert(!is_valid_puzzle(*self)) by {
                let (a, b) = choose|a: int, b: int| 0 <= a < b < titles@.len() && (#[trigger] titles@[a])@ == (#[trigger] titles@[b])@;
                assert(self.categories[a].title@ == self.categories[b].title@);
            }
        } else {
            assert forall|a: int, b: int| 0 <= a < b < 16 implies (#[trigger] solution_cards(
                *self,
            )[a]).content@ != (#[trigger] solution_cards(*self)[b]).content@ by {
                assert(words@[a] == solution_cards(*self)[a].content);
                assert(words@[b] == solution_cards(*self)[b].content);
            }
            assert forall|a: int, b: int| 0 <= a < b < 4 implies (#[trigger] self.categories[a]).title@
                != (#[trigger] self.categories[b]).title@ by {
                assert(titles@[a] == self.categories[a].title);
                assert(titles@[b] == self.categories[b].title);
            }
        }
        r
    }

    /// An empty puzzle: id 0, empty strings and empty categories.
    pub fn new() -> (r: Connections)
        ensures
            r.id == 0,
            r.print_date@.len() == 0,
            r.editor@.len() == 0,
            forall|k: int| 0 <= k < 16 ==> (#[trigger] solution_cards(r)[k]).content@.len() == 0
                && solution_cards(r)[k].position == 0,
            forall|k: int| 0 <= k < 4 ==> (#[trigger] r.categories[k]).title@.len() == 0,
    {
        Connections {
            id: 0,
            print_date: String::new(),
            editor: String::new(),
            categories: [Category::empty(), Category::empty(), Category::empty(), Category::empty()],
        }
    }

    /// Pairs each category with the difficulty of its position.
    pub fn with_difficulties(self) -> (r: Vec<(Category, Difficulty)>)
        ensures
            r@.len() == 4,
            forall|k: int| 0 <= k < 4 ==> (#[trigger] r@[k]).0 == self.categories[k] && r@[k].1
                == difficulty_of(k),
    {
        let difficulties = [
            Difficulty::STRAIGHTFORWARD,
            Difficulty::MEDIUM,
            Difficulty::HARD,
            Difficulty::TRICKY,
        ];
        let mut r: Vec<(Category, Difficulty)> = Vec::new();
        let mut k: usize = 0;
        while k < 4
            invariant
                k <= 4,
                r@.len() == k,
                difficulties@ == seq![
                    Difficulty::STRAIGHTFORWARD,
                    Difficulty::MEDIUM,
                    Difficulty::HARD,
                    Difficulty::TRICKY,
                ],
                forall|i: int| 0 <= i < k ==> (#[trigger] r@[i]).0 == self.categories[i] && r@[i].1
                    == difficulty_of(i),
            decreases 4 - k,
        {
            r.push((self.categories[k].duplicate(), difficulties[k]));
            k = k + 1;
        }
        r
    }
}

/// A move of the cursor by one cell.
#[derive(Debug, Clone, Copy, PartialEq, Eq, Structural)]
pub enum Direction {
    Up,
    Down,
    Left,
    Right,
}

/// The 4×4 arrangement of a puzzle's cards, with the cursor and the cells
/// selected so far, in the order they were selected.
#[derive(Debug, PartialEq)]
pub struct ConnectionsGrid {
    pub grid: [[Card; 4]; 4],
    pub cursor: (usize, usize),
    pub selected_cells: Vec<(usize, usize)>,
}

/// The sixteen cells of a grid, row by row.
pub open spec fn cells_of(grid: [[Card; 4]; 4]) -> Seq<Card> {
    Seq::new(16, |k: int| grid[k / 4][k % 4])
}

/// The flat index of a cell.
pub open spec fn flat_index(coord: (usize, usize)) -> int {
    4 * coord.0 + coord.1
}

/// Whether a coordinate names a cell of the grid.
pub open spec fn in_bounds(coord: (usize, usize)) -> bool {
    coord.0 < 4 && coord.1 < 4
}

/// A coordinate pulled back into the grid.
pub open spec fn clamp(x: usize) -> usize {
    if x > 3 {
        3
    } else {
        x
    }
}

/// Where the cursor stands after one move: one cell in the direction, never
/// leaving the grid and never wrapping around.
pub open spec fn moved(cursor: (usize, usize), dir: Direction) -> (usize, usize) {
    let r = clamp(cursor.0);
    let c = clamp(cursor.1);
    match dir {
        Direction::Up => (if r > 0 { (r - 1) as usize } else { 0 }, c),
        Direction::Down => (if r < 3 { (r + 1) as usize } else { 3 }, c),
        Direction::Left => (r, if c > 0 { (c - 1) as usize } else { 0 }),
        Direction::Right => (r, if c < 3 { (c + 1) as usize } else { 3 }),
    }
}

/// `s` with every occurrence of `x` taken out, the rest in order.
pub open spec fn without(s: Seq<(usize, usize)>, x: (usize, usize)) -> Seq<(usize, usize)>
    decreases s.len(),
{
    if s.len() == 0 {
        s
    } else if s.last() == x {
        without(s.drop_last(), x)
    } else {
        without(s.drop_last(), x).push(s.last())
    }
}

/// Relies on rand's `SliceRandom::shuffle` with the thread-local generator
/// (`rand::rng`): it only swaps elements, so the same cards come back, in an
/// order drawn at random.
#[verifier::external_body]
fn shuffle_cards(cards: &mut Vec<Card>)
    ensures
        final(cards)@.len() == old(cards)@.len(),
        final(cards)@.to_multiset() == old(cards)@.to_multiset(),
{
    cards.shuffle(&mut rand::rng());
}

fn flatten(grid: &[[Card; 4]; 4]) -> (r: Vec<Card>)
    ensures
        r@ == cells_of(*grid),
{
    let mut r: Vec<Card> = Vec::new();
    let mut k: usize = 0;
    while k < 16
        invariant
            k <= 16,
            r@ == cells_of(*grid).take(k as int),
        decreases 16 - k,
    {
        r.push(grid[k / 4][k % 4].duplicate());
        k = k + 1;
        assert(r@ =~= cells_of(*grid).take(k as int));
    }
    assert(r@ =~= cells_of(*grid));
    r
}

fn row_from(v: &Vec<Card>, start: usize) -> (r: [Card; 4])
    requires
        start + 4 <= v.len(),
    ensures
        forall|j: int| 0 <= j < 4 ==> #[trigger] r[j] == v@[start + j],
{
    [v[start].duplicate(), v[start + 1].duplicate(), v[start + 2].duplicate(), v[start + 3].duplicate()]
}

fn unflatten(v: &Vec<Card>) -> (r: [[Card; 4]; 4])
    requires
        v.len() == 16,
    ensures
        cells_of(r) == v@,
{
    let r = [row_from(v, 0), row_from(v, 4), row_from(v, 8), row_from(v, 12)];
    assert(cells_of(r) =~= v@);
    r
}

impl Clone for ConnectionsGrid {
    fn clone(&self) -> Self {
        let cards = flatten(&self.grid);
        ConnectionsGrid {
            grid: unflatten(&cards),
            cursor: self.cursor,
            selected_cells: self.selected_cells.clone(),
        }
    }
}

impl Default for ConnectionsGrid {
    fn default() -> (r: Self)
        ensures
            forall|k: int| 0 <= k < 16 ==> (#[trigger] cells_of(r.grid)[k]).content@.len() == 0
                && cells_of(r.grid)[k].position == 0,
            r.cursor == (0usize, 0usize),
            r.selected_cells@.len() == 0,
    {
        let row = Category::empty().cards;
        let grid = [row, Category::empty().cards, Category::empty().cards, Category::empty().cards];
        ConnectionsGrid { grid, cursor: (0, 0), selected_cells: Vec::new() }
    }
}

impl ConnectionsGrid {
    /// Puts the sixteen cards in an order drawn at random; the cursor and the
    /// selection stay as they are.
    pub fn shuffle(&mut self)
        ensures
            cells_of(final(self).grid).to_multiset() == cells_of(old(self).grid).to_multiset(),
            final(self).cursor == old(self).cursor,
            final(self).selected_cells@ == old(self).selected_cells@,
    {
        let mut cards = flatten(&self.grid);
        shuffle_cards(&mut cards);
        self.grid = unflatten(&cards);
    }

    /// A grid of the puzzle's sixteen cards in random order, with the cursor
    /// on the first cell and nothing selected.
    pub fn new(connections: Connections) -> (r: Self)
        ensures
            cells_of(r.grid).to_multiset() == solution_cards(connections).to_multiset(),
            r.cursor == (0usize, 0usize),
            r.selected_cells@.len() == 0,
    {
        let cards = [
            [
                connections.categories[0].cards[0].duplicate(),
                connections.categories[0].cards[1].duplicate(),
                connections.categories[0].cards[2].duplicate(),
                connections.categories[0].cards[3].duplicate(),
            ],
            [
                connections.categories[1].cards[0].duplicate(),
                connections.categories[1].cards[1].duplicate(),
                connections.categories[1].cards[2].duplicate(),
                connections.categories[1].cards[3].duplicate(),
            ],
            [
                connections.categories[2].cards[0].duplicate(),
                connections.categories[2].cards[1].duplicate(),
                connections.categories[2].cards[2].duplicate(),
                connections.categories[2].cards[3].duplicate(),
            ],
            [
                connections.categories[3].cards[0].duplicate(),
                connections.categories[3].cards[1].duplicate(),
                connections.categories[3].cards[2].duplicate(),
                connections.categories[3].cards[3].duplicate(),
            ],
        ];
        assert(cells_of(cards) =~= solution_cards(connections));
        let mut connectionsgrid = ConnectionsGrid {
            grid: cards,
            cursor: (0, 0),
            selected_cells: Vec::new(),
        };
        connectionsgrid.shuffle();
        connectionsgrid
    }

    /// The card at a cell; `OutOfBounds` where the cell is off the grid.
    pub fn word_at(&self, row: usize, col: usize) -> (r: Result<Card, GameError>)
        ensures
            in_bounds((row, col)) ==> r == Ok::<Card, GameError>(self.grid[row as int][col as int]),
            !in_bounds((row, col)) ==> r == Err::<Card, GameError>(GameError::OutOfBounds),
    {
        if row < 4 && col < 4 {
            Ok(self.grid[row][col].duplicate())
        } else {
            Err(GameError::OutOfBounds)
        }
    }

    /// Moves the cursor one cell, clamped to the grid.
    pub fn move_cursor(&mut self, dir: Direction)
        ensures
            final(self).cursor == moved(old(self).cursor, dir),
            final(self).grid == old(self).grid,
            final(self).selected_cells@ == old(self).selected_cells@,
    {
        let r: usize = if self.cursor.0 > 3 { 3 } else { self.cursor.0 };
        let c: usize = if self.cursor.1 > 3 { 3 } else { self.cursor.1 };
        self.cursor = match dir {
            Direction::Up => (if r > 0 { r - 1 } else { 0 }, c),
            Direction::Down => (if r < 3 { r + 1 } else { 3 }, c),
            Direction::Left => (r, if c > 0 { c - 1 } else { 0 }),
            Direction::Right => (r, if c < 3 { c + 1 } else { 3 }),
        };
    }

    /// Whether a cell is selected.
    pub fn is_selected(&self, coord: (usize, usize)) -> (r: bool)
        ensures
            r == self.selected_cells@.contains(coord),
    {
        let mut i: usize = 0;
        while i < self.selected_cells.len()
            invariant
                i <= self.selected_cells@.len(),
                forall|j: int| 0 <= j < i ==> self.selected_cells@[j] != coord,
            decreases self.selected_cells@.len() - i,
        {
            let cell = self.selected_cells[i];
            if cell.0 == coord.0 && cell.1 == coord.1 {
                return true;
            }
            i = i + 1;
        }
        false
    }

    /// Takes a cell out of the selection, keeping the order of the others.
    pub fn deselect(&mut self, coord: (usize, usize))
        ensures
            final(self).selected_cells@ == without(old(self).selected_cells@, coord),
            final(self).grid == old(self).grid,
            final(self).cursor == old(self).cursor,
    {
        let mut kept: Vec<(usize, usize)> = Vec::new();
        let mut i: usize = 0;
        while i < self.selected_cells.len()
            invariant
                i <= self.selected_cells@.len(),
                kept@ == without(self.selected_cells@.take(i as int), coord),
            decreases self.selected_cells@.len() - i,
        {
            let cell = self.selected_cells[i];
            assert(self.selected_cells@.take(i + 1).drop_last() =~= self.selected_cells@.take(
                i as int,
            ));
            if !(cell.0 == coord.0 && cell.1 == coord.1) {
                kept.push(cell);
            }
            i = i + 1;
        }
        assert(self.selected_cells@.take(i as int) =~= self.selected_cells@);
        self.selected_cells = kept;
    }

    /// Empties the selection.
    pub fn clear_selection(&mut self)
        ensures
            final(self).selected_cells@.len() == 0,
            final(self).grid == old(self).grid,
            final(self).cursor == old(self).cursor,
    {
        self.selected_cells = Vec::new();
    }
}

} // verus!
