use plinko::tags::gap_to_new_index;

fn drag(items: &[u32], src: usize, gap: usize) -> Vec<u32> {
    let mut v = items.to_vec();
    let item = v.remove(src);
    v.insert(gap_to_new_index(gap, src), item);
    v
}

#[test]
fn gap_conversion() {
    assert_eq!(gap_to_new_index(0, 2), 0);
    assert_eq!(gap_to_new_index(2, 2), 2);
    assert_eq!(gap_to_new_index(3, 2), 2);
    assert_eq!(gap_to_new_index(5, 2), 4);
}

#[test]
fn dragging_lands_in_the_gap() {
    let items = [10, 20, 30, 40];
    assert_eq!(drag(&items, 0, 4), vec![20, 30, 40, 10]);
    assert_eq!(drag(&items, 3, 0), vec![40, 10, 20, 30]);
    assert_eq!(drag(&items, 1, 3), vec![10, 30, 20, 40]);
    assert_eq!(drag(&items, 2, 2), vec![10, 20, 30, 40]);
    assert_eq!(drag(&items, 2, 3), vec![10, 20, 30, 40]);
}
