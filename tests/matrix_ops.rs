use xor_net::matrix::Matrix;

fn grid(rows: usize, cols: usize, data: Vec<f64>) -> Matrix<f64> {
    Matrix { rows, cols, data }
}

#[test]
fn from_builds_a_column() {
    let m = Matrix::from(vec![1.5, -2.0, 3.0]);
    assert_eq!(m.rows, 3);
    assert_eq!(m.cols, 1);
    assert_eq!(m.data, vec![1.5, -2.0, 3.0]);
}

#[test]
fn from_empty_sequence() {
    let m: Matrix<f64> = Matrix::from(vec![]);
    assert_eq!(m.rows, 0);
    assert_eq!(m.cols, 1);
    assert!(m.data.is_empty());
}

#[test]
fn dot_prod_of_two_by_two() {
    let a = grid(2, 2, vec![1.0, 2.0, 3.0, 4.0]);
    let b = grid(2, 2, vec![5.0, 6.0, 7.0, 8.0]);
    let p = a.dot_prod(&b);
    assert_eq!((p.rows, p.cols), (2, 2));
    assert_eq!(p.data, vec![19.0, 22.0, 43.0, 50.0]);
}

#[test]
fn dot_prod_shape() {
    let a = grid(2, 3, vec![1.0, 2.0, 3.0, 4.0, 5.0, 6.0]);
    let b = grid(3, 1, vec![1.0, 0.0, -1.0]);
    let p = a.dot_prod(&b);
    assert_eq!((p.rows, p.cols), (2, 1));
    assert_eq!(p.data, vec![-2.0, -2.0]);
}

#[test]
fn dot_prod_with_identity() {
    let a = grid(2, 3, vec![1.0, 2.0, 3.0, 4.0, 5.0, 6.0]);
    let id = grid(3, 3, vec![1.0, 0.0, 0.0, 0.0, 1.0, 0.0, 0.0, 0.0, 1.0]);
    assert_eq!(a.dot_prod(&id), a);
}

#[test]
fn transpose_moves_entries() {
    let a = grid(2, 3, vec![1.0, 2.0, 3.0, 4.0, 5.0, 6.0]);
    let t = a.transpose();
    assert_eq!((t.rows, t.cols), (3, 2));
    assert_eq!(t.data, vec![1.0, 4.0, 2.0, 5.0, 3.0, 6.0]);
}

#[test]
fn transpose_twice_is_identity() {
    let a = grid(3, 2, vec![1.0, -2.0, 3.5, 4.0, 0.25, 6.0]);
    assert_eq!(a.transpose().transpose(), a);
}

#[test]
fn add_entrywise_and_commutes() {
    let a = grid(2, 2, vec![1.0, 2.0, 3.0, 4.0]);
    let b = grid(2, 2, vec![0.5, -1.0, 10.0, 0.0]);
    let s = a.add(&b);
    assert_eq!(s.data, vec![1.5, 1.0, 13.0, 4.0]);
    assert_eq!(s, b.add(&a));
}

#[test]
fn sub_is_negated_reverse() {
    let a = grid(1, 3, vec![1.0, 2.0, 3.0]);
    let b = grid(1, 3, vec![4.0, 0.5, 3.0]);
    let d = a.sub(&b);
    assert_eq!(d.data, vec![-3.0, 1.5, 0.0]);
    let back = b.sub(&a).map(&|x: f64| -x);
    assert_eq!(d.data, back.data);
}

#[test]
fn elementwise_multiply_commutes_and_distributes() {
    let a = grid(2, 2, vec![1.0, 2.0, 3.0, 4.0]);
    let b = grid(2, 2, vec![2.0, 0.5, -1.0, 3.0]);
    let c = grid(2, 2, vec![1.0, 1.0, 2.0, -2.0]);
    assert_eq!(a.elementwise_multiply(&b).data, vec![2.0, 1.0, -3.0, 12.0]);
    assert_eq!(a.elementwise_multiply(&b), b.elementwise_multiply(&a));
    let left = a.elementwise_multiply(&b.add(&c));
    let right = a.elementwise_multiply(&b).add(&a.elementwise_multiply(&c));
    assert_eq!(left, right);
}

#[test]
fn scale_multiplies_every_entry() {
    let a = grid(1, 3, vec![1.0, -4.0, 6.0]);
    assert_eq!(a.scale(0.5).data, vec![0.5, -2.0, 3.0]);
}

#[test]
fn map_applies_the_function() {
    let a = grid(2, 1, vec![1.0, 3.0]);
    let m = a.map(&|x: f64| x * x + 1.0);
    assert_eq!((m.rows, m.cols), (2, 1));
    assert_eq!(m.data, vec![2.0, 10.0]);
}

#[test]
fn random_fills_with_draws() {
    let m = Matrix::random(3, 2, &|| 0.25);
    assert_eq!((m.rows, m.cols), (3, 2));
    assert_eq!(m.data, vec![0.25; 6]);
}

#[test]
fn duplicate_keeps_everything() {
    let a = grid(1, 2, vec![7.0, 8.0]);
    assert_eq!(a.duplicate(), a);
}

#[test]
fn render_two_by_two() {
    let cells = vec!["1", "2", "3", "4"].into_iter().map(String::from).collect();
    let m = Matrix { rows: 2, cols: 2, data: cells };
    let text = m.render();
    assert_eq!(text, "1\t2\n3\t4\n");
    let lines: Vec<&str> = text.lines().collect();
    assert_eq!(lines, vec!["1\t2", "3\t4"]);
}

#[test]
fn render_single_column() {
    let cells = vec!["a".to_string(), "bc".to_string()];
    let m = Matrix { rows: 2, cols: 1, data: cells };
    assert_eq!(m.render(), "a\nbc\n");
}
