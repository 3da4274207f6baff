use ezsql::accessor::{accessor_names, contains_fields, new_params, AccessorKind};

fn names(v: &[&str]) -> Vec<String> {
    v.iter().map(|s| s.to_string()).collect()
}

fn methods(kind: AccessorKind, fields: &[&str], args: Option<&[&str]>) -> Vec<(usize, String)> {
    accessor_names(kind, &names(fields), &args.map(names))
}

fn pairs(v: &[(usize, &str)]) -> Vec<(usize, String)> {
    v.iter().map(|(i, s)| (*i, s.to_string())).collect()
}

#[test]
fn named_test_foo() {
    let fields = ["a", "b", "c"];
    assert_eq!(
        methods(AccessorKind::Setter, &fields, None),
        pairs(&[(0, "set_a"), (1, "set_b"), (2, "set_c")])
    );
    assert_eq!(
        methods(AccessorKind::Getter, &fields, None),
        pairs(&[(0, "get_a"), (1, "get_b"), (2, "get_c")])
    );
}

#[test]
fn test_test_foo() {
    let fields = ["a", "b", "c"];
    assert_eq!(new_params(&names(&fields), &None), (vec![0, 1, 2], false));
    assert_eq!(
        methods(AccessorKind::Setter, &fields, None),
        pairs(&[(0, "set_a"), (1, "set_b"), (2, "set_c")])
    );
    assert_eq!(
        methods(AccessorKind::Getter, &fields, None),
        pairs(&[(0, "get_a"), (1, "get_b"), (2, "get_c")])
    );
}

#[test]
fn test_bar() {
    let fields = ["a", "b", "c", "d"];
    assert_eq!(new_params(&names(&fields), &Some(names(&["b", "c"]))), (vec![1, 2], true));
    assert_eq!(
        methods(AccessorKind::Setter, &fields, Some(&["a", "c"])),
        pairs(&[(0, "set_a"), (2, "set_c")])
    );
    assert_eq!(
        methods(AccessorKind::Getter, &fields, Some(&["b", "d"])),
        pairs(&[(1, "get_b"), (3, "get_d")])
    );
}

#[test]
fn test_un_foo() {
    let fields = ["0", "1", "2"];
    assert_eq!(new_params(&names(&fields), &None), (vec![0, 1, 2], false));
    assert_eq!(
        methods(AccessorKind::Setter, &fields, None),
        pairs(&[(0, "set_0"), (1, "set_1"), (2, "set_2")])
    );
    assert_eq!(
        methods(AccessorKind::Getter, &fields, None),
        pairs(&[(0, "get_0"), (1, "get_1"), (2, "get_2")])
    );
}

#[test]
fn test_un_bar() {
    let fields = ["0", "1", "2", "3"];
    assert_eq!(new_params(&names(&fields), &Some(names(&["0", "2"]))), (vec![0, 2], true));
    assert_eq!(
        methods(AccessorKind::Setter, &fields, Some(&["0", "2"])),
        pairs(&[(0, "set_0"), (2, "set_2")])
    );
    assert_eq!(
        methods(AccessorKind::Getter, &fields, Some(&["1", "2", "3"])),
        pairs(&[(1, "get_1"), (2, "get_2"), (3, "get_3")])
    );
}

#[test]
fn no_list_means_every_field() {
    assert!(contains_fields(&None, &"x".to_string()));
    assert!(contains_fields(&Some(names(&["x", "y"])), &"y".to_string()));
    assert!(!contains_fields(&Some(names(&["x"])), &"y".to_string()));
    assert!(!contains_fields(&Some(vec![]), &"x".to_string()));
    assert_eq!(methods(AccessorKind::Getter, &[], None), vec![]);
    assert_eq!(AccessorKind::Constructor.word(), "new");
}
