use dwarfilib::collections::{Matrix, Vector};
use dwarfilib::rooms::{Layout, Room, render_matrix};
use dwarfilib::shapes::Rect;

#[test]
fn layout_bounding_box_encloses_rooms() {
    let mut rooms = Vector::new();
    rooms.push(Room::new(Rect { x: 2, y: 3, w: 5, h: 7 }));
    rooms.push(Room::new(Rect { x: -2, y: 5, w: 5, h: 10 }));
    rooms.push(Room::new(Rect { x: 0, y: -7, w: 12, h: 8 }));
    let layout = Layout::new(rooms);
    let bb = layout.calculate_bounding_box();
    assert_eq!(Rect { x: -2, y: -7, w: 14, h: 22 }, bb);
}

#[test]
fn char_matrix_paints_borders_and_interior() {
    let mut rooms = Vector::new();
    rooms.push(Room::new(Rect { x: 0, y: 0, w: 4, h: 3 }));
    let layout = Layout::new(rooms);
    let matrix = layout.as_char_matrix();
    assert_eq!(4, matrix.w);
    assert_eq!(3, matrix.h);
    for x in 0..4usize {
        for y in 0..3usize {
            let expected = if x == 0 || x == 3 || y == 0 || y == 2 {
                '#'
            } else {
                '.'
            };
            assert_eq!(Some(expected), *matrix.get(x, y));
        }
    }
}

#[test]
fn char_matrix_leaves_gaps_unset() {
    let mut rooms = Vector::new();
    rooms.push(Room::new(Rect { x: 0, y: 0, w: 2, h: 2 }));
    rooms.push(Room::new(Rect { x: 3, y: 0, w: 2, h: 2 }));
    let layout = Layout::new(rooms);
    let matrix = layout.as_char_matrix();
    assert_eq!(5, matrix.w);
    assert_eq!(2, matrix.h);
    assert_eq!(Some('#'), *matrix.get(0, 0));
    assert_eq!(Some('#'), *matrix.get(1, 1));
    assert_eq!(None, *matrix.get(2, 0));
    assert_eq!(None, *matrix.get(2, 1));
    assert_eq!(Some('#'), *matrix.get(3, 0));
    assert_eq!(Some('#'), *matrix.get(4, 1));
}

#[test]
fn render_matrix_gives_exact_text() {
    let mut matrix: Matrix<char> = Matrix::new(2, 2);
    matrix.set(0, 0, 'a');
    matrix.set(1, 1, 'b');
    let text = render_matrix(&matrix);
    assert_eq!("a \r\n b\r\n", text.as_str());
}
