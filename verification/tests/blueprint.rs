use dwarfilib::blueprint::{Blueprint, RoomBlueprint};
use dwarfilib::shapes::Rect;

#[test]
fn compile_expands_blueprints() {
    let rbp0 = RoomBlueprint { key: 0, width: 3, height: 3, amount: 1 };
    let rbp1 = RoomBlueprint { key: 1, width: 5, height: 5, amount: 3 };
    let rbp2 = RoomBlueprint { key: 2, width: 6, height: 2, amount: 2 };
    let bp = Blueprint { rooms: vec![rbp0, rbp1, rbp2] };
    let genes = bp.compile();
    assert_eq!(6, genes.len());
    for i in 0..6usize {
        assert_eq!(i as i64, genes.get(i).gene_id);
    }
    assert_eq!(Rect { x: 0, y: 0, w: 4, h: 4 }, genes.get(0).rect);
    for i in 1..4usize {
        assert_eq!(Rect { x: 0, y: 0, w: 6, h: 6 }, genes.get(i).rect);
    }
    for i in 4..6usize {
        assert_eq!(Rect { x: 0, y: 0, w: 7, h: 3 }, genes.get(i).rect);
    }
}

#[test]
fn compile_of_no_rooms_gives_no_genes() {
    let bp = Blueprint { rooms: vec![] };
    let genes = bp.compile();
    assert_eq!(0, genes.len());
}
