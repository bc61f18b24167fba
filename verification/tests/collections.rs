use dwarfilib::collections::{Matrix, Vector};

#[test]
fn vector_push_pop_work() {
    let mut vec = Vector::new();
    for i in 0..10 {
        vec.push(i);
    }
    for i in 0..11 {
        match i {
            10 => assert_eq!(None, vec.pop()),
            _ => assert_eq!(9 - i, vec.pop().unwrap()),
        }
    }
}

#[test]
fn vector_indexing_works() {
    let mut vec = Vector::new();
    for i in 0..10usize {
        vec.push(i * 2);
    }
    for i in 0..10usize {
        assert_eq!(i * 2, *vec.get(i));
    }
    for i in 0..10usize {
        vec.set(i, i + 1);
    }
    for i in 0..10usize {
        assert_eq!(i + 1, *vec.get(i));
    }
}

#[test]
fn vector_allocates_correct_amount_of_space() {
    let mut vec1 = Vector::new();
    for i in 0..10 {
        match i {
            0 => assert_eq!(0, vec1.get_cap()),
            1..=8 => assert_eq!(8, vec1.get_cap()),
            9 => assert_eq!(16, vec1.get_cap()),
            _ => panic!("Something is terribly wrong with the test!"),
        }
        vec1.push(i);
    }
    let mut vec2 = Vector::new_with_size(16);
    assert_eq!(16, vec2.get_cap());
    for i in 0..18 {
        match i {
            0..=16 => assert_eq!(16, vec2.get_cap()),
            17 => assert_eq!(32, vec2.get_cap()),
            _ => panic!("Something is terribly wrong with the test!"),
        }
        vec2.push(i);
    }
}

#[test]
fn vector_insert_remove_work() {
    let mut vec = Vector::new();
    for i in 0..10 {
        vec.push(i);
    }
    vec.insert(3, 99);
    assert_eq!(2, *vec.get(2));
    assert_eq!(99, *vec.get(3));
    assert_eq!(3, *vec.get(4));
    assert_eq!(3, vec.remove(4));
    assert_eq!(4, *vec.get(4));
    assert_eq!(99, *vec.get(3));
}

#[test]
fn matrix_constructor_works() {
    let w = 7;
    let h = 9;
    let mat: Matrix<usize> = Matrix::new(w, h);
    for x in 0..w {
        for y in 0..h {
            assert_eq!(None, *mat.get(x, y));
        }
    }
}

#[test]
fn matrix_set_works() {
    let w = 7;
    let h = 9;
    let mut mat = Matrix::new(w, h);
    for x in 0..w {
        for y in 0..h {
            mat.set(x, y, x * 2 + y);
        }
    }
    for x in 0..w {
        for y in 0..h {
            assert_eq!(x * 2 + y, mat.get(x, y).unwrap());
        }
    }
}
