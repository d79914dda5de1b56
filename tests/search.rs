use anvil_planner::{
    best, branch_iterator, enumerate, find_best, plan_counts, topologies, Branch, CombinationError,
    Enchantment, EnchantmentKind, Enchantments, Item, ItemKind,
};

fn item(kind: ItemKind, list: &[(EnchantmentKind, u8)]) -> Item {
    let mut e = Enchantments::empty();
    for (k, l) in list {
        e = e.set(Enchantment::new(*k, *l).unwrap());
    }
    Item { enchantments: e, prior_work_penalty: 0, kind }
}

fn pool(n: usize) -> Vec<Item> {
    let books = [
        (EnchantmentKind::Mending, 1),
        (EnchantmentKind::Efficiency, 5),
        (EnchantmentKind::SilkTouch, 1),
        (EnchantmentKind::Unbreaking, 3),
        (EnchantmentKind::Fortune, 3),
        (EnchantmentKind::CurseOfVanishing, 1),
        (EnchantmentKind::Sharpness, 4),
    ];
    let mut items = vec![item(ItemKind::Pickaxe, &[])];
    for b in books.iter().take(n - 1) {
        items.push(item(ItemKind::Book, &[*b]));
    }
    items
}

fn all_lazy(items: &[Item]) -> Vec<Branch> {
    let mut it = branch_iterator(items);
    let mut out = Vec::new();
    while let Some(r) = it.next() {
        out.push(r.unwrap());
    }
    out
}

#[test]
fn plan_counts_are_odd_double_factorials() {
    let c = plan_counts();
    assert_eq!(&c[1..], &[1, 1, 3, 15, 105, 945, 10395, 135135, 2027025, 34459425]);
}

#[test]
fn topologies_list_each_bipartition_once() {
    let t = topologies(3);
    assert_eq!(t, vec![(vec![0], vec![1, 2]), (vec![1], vec![0, 2]), (vec![0, 1], vec![2])]);
    assert_eq!(topologies(10).len(), 511);
    assert_eq!(topologies(2), vec![(vec![0], vec![1])]);
}

#[test]
fn single_item_has_one_empty_plan() {
    let items = pool(1);
    let all = enumerate(&items).unwrap();
    assert_eq!(all.len(), 1);
    assert_eq!(all[0].len(), 0);
    assert_eq!(all[0].total_cost, 0);
    let lazy = all_lazy(&items);
    assert_eq!(lazy.len(), 1);
    assert_eq!(lazy[0].total_cost, 0);
}

#[test]
fn two_items_have_one_plan_of_the_cheaper_direction() {
    let a = item(ItemKind::Book, &[(EnchantmentKind::Sharpness, 5)]);
    let b = item(ItemKind::Book, &[(EnchantmentKind::Protection, 4)]);
    let all = enumerate(&[a, b]).unwrap();
    assert_eq!(all.len(), 1);
    assert_eq!(all[0].len(), 1);
    assert_eq!(all[0].step(0), Branch::of_two(a, b).unwrap().step(0));
    assert_eq!(all[0].step(0).target, a);
    assert_eq!(all[0].total_cost, 4);
}

#[test]
fn eager_and_lazy_agree() {
    for n in 3..=6 {
        let items = pool(n);
        let eager = enumerate(&items).unwrap();
        let lazy = all_lazy(&items);
        assert_eq!(eager.len(), lazy.len());
        let mut a: Vec<u16> = eager.iter().map(|b| b.total_cost).collect();
        let mut b: Vec<u16> = lazy.iter().map(|b| b.total_cost).collect();
        assert_eq!(a, b);
        a.sort();
        b.sort();
        assert_eq!(a, b);
        for (x, y) in eager.iter().zip(lazy.iter()) {
            assert_eq!(x.len(), n - 1);
            assert_eq!(x.len(), y.len());
            for i in 0..x.len() {
                assert_eq!(x.step(i), y.step(i));
            }
        }
    }
}

#[test]
fn plan_steps_chain_and_add_up() {
    let items = pool(4);
    for b in enumerate(&items).unwrap() {
        let mut sum = 0u16;
        for i in 0..b.len() {
            sum += b.step(i).cost;
        }
        assert_eq!(sum, b.total_cost);
        assert_eq!(b.step(b.len() - 1).result.enchantments.size(), 3);
    }
}

#[test]
fn best_picks_first_cheapest() {
    let none: Vec<Branch> = Vec::new();
    assert!(best(&none).is_none());
    let a = item(ItemKind::Book, &[(EnchantmentKind::Sharpness, 2)]);
    let b = item(ItemKind::Book, &[(EnchantmentKind::Power, 2)]);
    let c = item(ItemKind::Book, &[(EnchantmentKind::Mending, 1)]);
    let one = vec![Branch::of_two(a, c).unwrap()];
    assert_eq!(best(&one).unwrap().total_cost, one[0].total_cost);
    let list = vec![
        Branch::of_two(c, c).unwrap(),
        Branch::of_two(a, b).unwrap(),
        Branch::of_two(b, a).unwrap(),
    ];
    // Mending book onto Mending book costs 2 x 2; the other two cost 2 each.
    assert_eq!(list[0].total_cost, 4);
    let chosen = best(&list).unwrap();
    assert_eq!(chosen.total_cost, 2);
    assert_eq!(chosen.step(0).target, a);
}

#[test]
fn find_best_matches_best_of_enumeration() {
    for n in 1..=6 {
        let items = pool(n);
        let all = enumerate(&items).unwrap();
        let expected = best(&all).unwrap();
        let found = find_best(&items).unwrap();
        assert_eq!(found.total_cost, expected.total_cost);
        assert_eq!(found.len(), expected.len());
        for i in 0..found.len() {
            assert_eq!(found.step(i), expected.step(i));
        }
    }
}

#[test]
fn two_tools_end_to_end() {
    let a = item(ItemKind::Pickaxe, &[(EnchantmentKind::Unbreaking, 3)]);
    let b = item(ItemKind::Pickaxe, &[(EnchantmentKind::Efficiency, 5)]);
    let found = find_best(&[a, b]).unwrap();
    assert_eq!(found.len(), 1);
    // Efficiency 5 x 1 beats Unbreaking 3 x 2.
    assert_eq!(found.total_cost, 5);
    let result = found.step(0).result;
    assert_eq!(result.enchantments.get_level(EnchantmentKind::Unbreaking), 3);
    assert_eq!(result.enchantments.get_level(EnchantmentKind::Efficiency), 5);
    assert_eq!(result.enchantments.size(), 2);
    assert_eq!(result.prior_work_penalty, 1);
}

#[test]
fn incompatible_items_fail_the_search() {
    let items = vec![
        item(ItemKind::Sword, &[]),
        item(ItemKind::Book, &[(EnchantmentKind::Looting, 3)]),
        item(ItemKind::Axe, &[]),
    ];
    let eager = enumerate(&items);
    let lazy = find_best(&items);
    assert!(matches!(eager, Err(CombinationError::IncompatibleItems { .. })));
    match (eager, lazy) {
        (Err(x), Err(y)) => assert_eq!(x, y),
        _ => panic!("both strategies fail"),
    }
    let mut it = branch_iterator(&items);
    let mut seen_error = false;
    while let Some(r) = it.next() {
        assert!(!seen_error);
        if r.is_err() {
            seen_error = true;
        }
    }
    assert!(seen_error);
    assert!(it.next().is_none());
}
