use linear_containers::recursion::{Maze, MazeError, MazeTile};

#[test]
fn test_maze_solver() {
    let maze = Maze::new(vec![
        vec!['#', '#', '#', '#', 'E', '#'],
        vec!['#', ' ', ' ', ' ', ' ', '#'],
        vec!['#', 'S', '#', '#', '#', '#'],
    ]);
    let incorrect_maze = Maze::new(vec![
        vec!['#', '#', '#', '#', 'X', '#'],
        vec!['#', ' ', ' ', ' ', ' ', '#'],
        vec!['#', 'A', '#', '#', '#', '#'],
    ]);
    assert_eq!(maze.as_ref().unwrap().start, (2, 1));
    assert_eq!(maze.as_ref().unwrap().end, (0, 4));
    assert_eq!(maze.as_ref().unwrap().limit, (3, 6));
    assert!((2, 5) < maze.as_ref().unwrap().limit);
    assert!(maze.is_ok());
    assert!(incorrect_maze.is_err());
}

#[test]
fn test_maze_reports_first_incompatible_tile() {
    let result = Maze::new(vec![vec!['#', 'S'], vec!['X', 'Y']]);
    match result {
        Err(MazeError::IncompatibleTile(tile)) => {
            assert!(matches!(tile, MazeTile::Incompatible('X')));
        },
        _ => panic!("expected an incompatible tile"),
    }
}

#[test]
fn test_maze_tiles_and_markers() {
    let maze = Maze::new(vec![vec!['S', ' '], vec!['#', 'E']]).unwrap();
    assert!(matches!(maze.maze[0][0], MazeTile::Start));
    assert!(matches!(maze.maze[0][1], MazeTile::Empty));
    assert!(matches!(maze.maze[1][0], MazeTile::Wall));
    assert!(matches!(maze.maze[1][1], MazeTile::End));
    assert_eq!(maze.start, (0, 0));
    assert_eq!(maze.end, (1, 1));
    assert_eq!(maze.limit, (2, 2));
}

#[test]
fn test_maze_without_markers_defaults_to_origin() {
    let maze = Maze::new(vec![vec!['#', '#']]).unwrap();
    assert_eq!(maze.start, (0, 0));
    assert_eq!(maze.end, (0, 0));
}
