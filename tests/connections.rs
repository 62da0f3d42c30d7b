use connections_tui::app::{App, GameStatus, Grid, MAX_MISTAKES};
use connections_tui::connections::{
    Card, Category, Connections, ConnectionsGrid, Difficulty, Direction, GameError,
};

fn card(content: &str, position: u8) -> Card {
    Card { content: String::from(content), position }
}

fn category(title: &str, words: [(&str, u8); 4]) -> Category {
    Category {
        title: String::from(title),
        cards: [
            card(words[0].0, words[0].1),
            card(words[1].0, words[1].1),
            card(words[2].0, words[2].1),
            card(words[3].0, words[3].1),
        ],
    }
}

fn sample_puzzle() -> Connections {
    Connections {
        id: 1,
        print_date: String::from("2024-12-24"),
        editor: String::from("Wyna Liu"),
        categories: [
            category("SECURE", [("FAST", 8), ("FIRM", 4), ("SECURE", 10), ("TIGHT", 14)]),
            category("PATRON", [("ACCOUNT", 11), ("CLIENT", 6), ("CONSUMER", 15), ("USE", 12)]),
            category("SNOW ___", [("FROSTY", 0), ("MISTLETOE", 7), ("RAINMAKER", 3), ("SNOWMAN", 1)]),
            category("SILENT ___", [("AUCTION", 2), ("MOVIE", 5), ("PARTNER", 9), ("TREATMENT", 13)]),
        ],
    }
}

fn find(app: &App, word: &str) -> (usize, usize) {
    let grid = app.grid();
    for r in 0..4 {
        for c in 0..4 {
            if grid.grid[r][c].content == word {
                return (r, c);
            }
        }
    }
    panic!("word not on the grid: {}", word);
}

fn select_words(app: &mut App, words: [&str; 4]) {
    for w in words {
        let (r, c) = find(app, w);
        assert_eq!(app.toggle_selection(r, c), Ok(()));
    }
}

fn sorted_words(grid: &ConnectionsGrid) -> Vec<String> {
    let mut v: Vec<String> = grid.grid.iter().flatten().map(|c| c.content.clone()).collect();
    v.sort();
    v
}

#[test]
fn test_shuffle() {
    let cards: [[Card; 4]; 4] = [
        [
            Card { content: String::from("FAST"), position: 8 },
            Card { content: String::from("FIRM"), position: 4 },
            Card { content: String::from("SECURE"), position: 10 },
            Card { content: String::from("TIGHT"), position: 14 },
        ],
        [
            Card { content: String::from("ACCOUNT"), position: 11 },
            Card { content: String::from("CLIENT"), position: 6 },
            Card { content: String::from("CONSUMER"), position: 15 },
            Card { content: String::from("USE"), position: 12 },
        ],
        [
            Card { content: String::from("FROSTY"), position: 0 },
            Card { content: String::from("MISTLETOE"), position: 7 },
            Card { content: String::from("RAINMAKER"), position: 3 },
            Card { content: String::from("SNOWMAN"), position: 1 },
        ],
        [
            Card { content: String::from("AUCTION"), position: 2 },
            Card { content: String::from("MOVIE"), position: 5 },
            Card { content: String::from("PARTNER"), position: 9 },
            Card { content: String::from("TREATMENT"), position: 13 },
        ],
    ];

    let connections_grid = ConnectionsGrid {
        grid: cards,
        cursor: (0, 0),
        selected_cells: Vec::new(),
    };

    let mut shuffled = connections_grid.clone();

    shuffled.shuffle();

    assert_ne!(shuffled, connections_grid);
}

#[test]
fn shuffle_keeps_the_same_cards() {
    let grid = ConnectionsGrid::new(sample_puzzle());
    let mut shuffled = grid.clone();
    shuffled.shuffle();
    assert_eq!(sorted_words(&grid), sorted_words(&shuffled));
    assert_eq!(shuffled.cursor, grid.cursor);
}

#[test]
fn shuffle_spreads_a_word_over_all_cells() {
    let mut grid = ConnectionsGrid::new(sample_puzzle());
    let mut seen = [0u32; 16];
    for _ in 0..3200 {
        grid.shuffle();
        for k in 0..16 {
            if grid.grid[k / 4][k % 4].content == "FAST" {
                seen[k] += 1;
            }
        }
    }
    for k in 0..16 {
        assert!(seen[k] > 100 && seen[k] < 320, "cell {} held the word {} times", k, seen[k]);
    }
}

#[test]
fn build_lays_out_every_word_once() {
    let puzzle = sample_puzzle();
    let grid = ConnectionsGrid::new(puzzle.clone());
    let mut expected: Vec<String> =
        puzzle.categories.iter().flat_map(|c| c.cards.iter().map(|k| k.content.clone())).collect();
    expected.sort();
    assert_eq!(sorted_words(&grid), expected);
    assert_eq!(grid.cursor, (0, 0));
    assert!(grid.selected_cells.is_empty());
}

#[test]
fn empty_puzzle_and_default_grid() {
    let c = Connections::new();
    assert_eq!(c.id, 0);
    assert!(c.editor.is_empty() && c.print_date.is_empty());
    assert!(c.categories.iter().all(|k| k.title.is_empty()));
    let g = ConnectionsGrid::default();
    assert!(g.grid.iter().flatten().all(|k| k.content.is_empty() && k.position == 0));
    let layout = Grid::default();
    assert_eq!((layout.cell_size, layout.cols, layout.rows), (3, 4, 4));
}

#[test]
fn difficulties_follow_category_order() {
    let pairs = sample_puzzle().with_difficulties();
    assert_eq!(pairs.len(), 4);
    assert_eq!(pairs[0].0.title, "SECURE");
    assert_eq!(pairs[0].1, Difficulty::STRAIGHTFORWARD);
    assert_eq!(pairs[1].1, Difficulty::MEDIUM);
    assert_eq!(pairs[2].1, Difficulty::HARD);
    assert_eq!(pairs[3].0.title, "SILENT ___");
    assert_eq!(pairs[3].1, Difficulty::TRICKY);
}

#[test]
fn category_lookup_by_word() {
    let p = sample_puzzle();
    assert_eq!(p.category_of(&String::from("USE")), Ok(1));
    assert_eq!(p.category_of(&String::from("TREATMENT")), Ok(3));
    assert_eq!(p.category_of(&String::from("FAST")), Ok(0));
    assert_eq!(p.category_of(&String::from("SLOW")), Err(GameError::UnknownWord));
}

#[test]
fn word_at_checks_bounds() {
    let grid = ConnectionsGrid::new(sample_puzzle());
    assert_eq!(grid.word_at(3, 3), Ok(grid.grid[3][3].clone()));
    assert_eq!(grid.word_at(4, 0), Err(GameError::OutOfBounds));
    assert_eq!(grid.word_at(0, 4), Err(GameError::OutOfBounds));
}

#[test]
fn malformed_puzzles_are_refused() {
    let mut p = sample_puzzle();
    p.categories[2].cards[1].content = String::new();
    assert!(matches!(App::new(p), Err(GameError::MalformedPuzzle)));
    let mut p = sample_puzzle();
    p.categories[3].cards[0].content = String::from("FAST");
    assert!(matches!(App::new(p), Err(GameError::MalformedPuzzle)));
    let mut p = sample_puzzle();
    p.categories[1].title = String::from("SECURE");
    assert!(matches!(App::new(p), Err(GameError::MalformedPuzzle)));
    assert!(matches!(App::new(Connections::new()), Err(GameError::MalformedPuzzle)));
    assert!(sample_puzzle().is_valid());
}

#[test]
fn cursor_moves_and_stops_at_edges() {
    let mut app = App::new(sample_puzzle()).unwrap();
    assert_eq!(app.move_cursor(Direction::Up), Ok(()));
    assert_eq!(app.grid().cursor, (0, 0));
    assert_eq!(app.move_cursor(Direction::Down), Ok(()));
    assert_eq!(app.move_cursor(Direction::Right), Ok(()));
    assert_eq!(app.grid().cursor, (1, 1));
    for _ in 0..5 {
        app.move_cursor(Direction::Right).unwrap();
    }
    assert_eq!(app.grid().cursor, (1, 3));
    app.move_cursor(Direction::Left).unwrap();
    assert_eq!(app.grid().cursor, (1, 2));
}

#[test]
fn toggling_twice_returns_to_idle() {
    let mut app = App::new(sample_puzzle()).unwrap();
    assert_eq!(app.toggle_selection(2, 1), Ok(()));
    assert_eq!(app.grid().selected_cells, vec![(2, 1)]);
    assert_eq!(app.toggle_selection(2, 1), Ok(()));
    assert!(app.grid().selected_cells.is_empty());
    assert_eq!(app.mistakes_made(), 0);
    assert_eq!(app.status(), GameStatus::InProgress);
}

#[test]
fn deselecting_keeps_the_order() {
    let mut app = App::new(sample_puzzle()).unwrap();
    app.toggle_selection(0, 0).unwrap();
    app.toggle_selection(1, 1).unwrap();
    app.toggle_selection(2, 2).unwrap();
    app.toggle_selection(1, 1).unwrap();
    assert_eq!(app.grid().selected_cells, vec![(0, 0), (2, 2)]);
    assert_eq!(app.toggle_selection(4, 0), Err(GameError::OutOfBounds));
    assert_eq!(app.clear_selection(), Ok(()));
    assert!(app.grid().selected_cells.is_empty());
}

#[test]
fn fifth_cell_is_refused() {
    let mut app = App::new(sample_puzzle()).unwrap();
    for c in 0..4 {
        app.toggle_selection(0, c).unwrap();
    }
    let before = app.grid().selected_cells.clone();
    assert_eq!(app.toggle_selection(1, 0), Err(GameError::SelectionFull));
    assert_eq!(app.grid().selected_cells, before);
}

#[test]
fn incomplete_selection_is_refused() {
    let mut app = App::new(sample_puzzle()).unwrap();
    assert_eq!(app.submit_guess(), Err(GameError::IncompleteSelection));
    app.toggle_selection(0, 0).unwrap();
    assert_eq!(app.submit_guess(), Err(GameError::IncompleteSelection));
    assert_eq!(app.mistakes_made(), 0);
}

#[test]
fn correct_guess_solves_a_category() {
    let mut app = App::new(sample_puzzle()).unwrap();
    select_words(&mut app, ["FAST", "FIRM", "SECURE", "TIGHT"]);
    assert_eq!(app.submit_guess(), Ok(true));
    assert_eq!(app.solved_categories(), vec![0]);
    assert_eq!(app.mistakes_made(), 0);
    assert_eq!(app.status(), GameStatus::InProgress);
    assert!(app.grid().selected_cells.is_empty());
    let (r, c) = find(&app, "FIRM");
    assert_eq!(app.toggle_selection(r, c), Err(GameError::CellUnavailable));
    assert_eq!(app.solved_category_at(r, c), Ok(Some(0)));
    let (r, c) = find(&app, "USE");
    assert_eq!(app.solved_category_at(r, c), Ok(None));
    assert_eq!(app.solved_category_at(0, 9), Err(GameError::OutOfBounds));
}

#[test]
fn wrong_guess_costs_one_mistake() {
    let mut app = App::new(sample_puzzle()).unwrap();
    select_words(&mut app, ["FAST", "FIRM", "SECURE", "USE"]);
    assert_eq!(app.submit_guess(), Ok(false));
    assert_eq!(app.mistakes_made(), 1);
    assert_eq!(app.mistakes_remaining(), MAX_MISTAKES - 1);
    assert!(app.solved_categories().is_empty());
    assert!(app.grid().selected_cells.is_empty());
    select_words(&mut app, ["FAST", "FIRM", "SECURE", "USE"]);
    assert_eq!(app.submit_guess(), Ok(false));
    assert_eq!(app.mistakes_made(), 2);
}

#[test]
fn solving_all_categories_wins() {
    let mut app = App::new(sample_puzzle()).unwrap();
    select_words(&mut app, ["FAST", "FIRM", "SECURE", "TIGHT"]);
    assert_eq!(app.submit_guess(), Ok(true));
    assert_eq!(app.solved_categories(), vec![0]);
    assert_eq!(app.status(), GameStatus::InProgress);
    select_words(&mut app, ["ACCOUNT", "CLIENT", "CONSUMER", "USE"]);
    assert_eq!(app.submit_guess(), Ok(true));
    select_words(&mut app, ["FROSTY", "MISTLETOE", "RAINMAKER", "SNOWMAN"]);
    assert_eq!(app.submit_guess(), Ok(true));
    select_words(&mut app, ["AUCTION", "MOVIE", "PARTNER", "TREATMENT"]);
    assert_eq!(app.submit_guess(), Ok(true));
    assert_eq!(app.status(), GameStatus::Won);
    assert_eq!(app.mistakes_made(), 0);
    assert_eq!(app.solved_categories(), vec![0, 1, 2, 3]);
    assert_eq!(app.toggle_selection(0, 0), Err(GameError::SessionFinished));
    assert_eq!(app.submit_guess(), Err(GameError::SessionFinished));
    assert_eq!(app.reshuffle(), Err(GameError::SessionFinished));
    assert_eq!(app.move_cursor(Direction::Down), Err(GameError::SessionFinished));
}

#[test]
fn four_mixed_guesses_lose() {
    let mut app = App::new(sample_puzzle()).unwrap();
    for _ in 0..4 {
        select_words(&mut app, ["FAST", "ACCOUNT", "FROSTY", "AUCTION"]);
        assert_eq!(app.submit_guess(), Ok(false));
    }
    assert_eq!(app.mistakes_made(), 4);
    assert_eq!(app.mistakes_remaining(), 0);
    assert_eq!(app.status(), GameStatus::Lost);
    assert!(app.solved_categories().is_empty());
    assert_eq!(app.clear_selection(), Err(GameError::SessionFinished));
    assert_eq!(app.toggle_selection(0, 0), Err(GameError::SessionFinished));
}

#[test]
fn reshuffle_keeps_progress() {
    let mut app = App::new(sample_puzzle()).unwrap();
    select_words(&mut app, ["FAST", "FIRM", "SECURE", "TIGHT"]);
    app.submit_guess().unwrap();
    select_words(&mut app, ["ACCOUNT", "FROSTY", "AUCTION", "MOVIE"]);
    assert_eq!(app.submit_guess(), Ok(false));
    app.toggle_selection(find(&app, "USE").0, find(&app, "USE").1).unwrap();
    let before = sorted_words(app.grid());
    assert_eq!(app.reshuffle(), Ok(()));
    assert_eq!(sorted_words(app.grid()), before);
    assert!(app.grid().selected_cells.is_empty());
    assert_eq!(app.solved_categories(), vec![0]);
    assert_eq!(app.mistakes_made(), 1);
    assert_eq!(app.puzzle().id, 1);
}
