use tunnel_core::codec::{decode_expr, encode_expr};
use tunnel_core::error::Kind;
use tunnel_core::expr::{and, eq, f, ident, int_lit, member, not, seq_lit, str, t, Expr};
use tunnel_core::policy::{Action, PolicyRow, PolicySqlxDatabase, Resource};

#[test]
fn policy_repository_sql_test_repository() {
    let mut repository = PolicySqlxDatabase::create();

    // a policy can be associated to a resource and an action
    let r = Resource::from("outlet");
    let a = Action::from("create");
    let e = eq(vec![ident("name"), str("me")]);
    repository.set_policy(&r, &a, &e).unwrap();
    assert!(repository.get_policy(&r, &a).unwrap().unwrap().equals(&e));

    // we can retrieve all the policies associated to a given resource
    let policies = repository.get_policies_by_resource(&r).unwrap();
    assert_eq!(policies.len(), 1);

    let a = Action::from("delete");
    repository.set_policy(&r, &a, &e).unwrap();
    let policies = repository.get_policies_by_resource(&r).unwrap();
    assert_eq!(policies.len(), 2);

    // we can delete a given policy
    // here we delete the policy for outlet/delete
    repository.delete_policy(&r, &a).unwrap();
    let policies = repository.get_policies_by_resource(&r).unwrap();
    assert_eq!(policies.len(), 1);
    assert_eq!(policies.first().unwrap().0, Action::from("create"));
}

#[test]
fn binary_form_of_a_small_expression() {
    let e = eq(vec![ident("name"), str("me")]);
    let bytes = encode_expr(&e);
    let expected: Vec<u8> = vec![
        0x82, 0x07, 0x81, 0x83, // list of three
        0x82, 0x05, 0x81, 0x61, b'=', // ident "="
        0x82, 0x05, 0x81, 0x64, b'n', b'a', b'm', b'e', // ident "name"
        0x82, 0x01, 0x81, 0x62, b'm', b'e', // str "me"
    ];
    assert_eq!(bytes, expected);
    assert_eq!(decode_expr(&bytes).unwrap(), e);
}

#[test]
fn integers_take_the_shortest_head() {
    let cases: Vec<(i64, Vec<u8>)> = vec![
        (0, vec![0x00]),
        (23, vec![0x17]),
        (24, vec![0x18, 24]),
        (255, vec![0x18, 0xff]),
        (256, vec![0x19, 0x01, 0x00]),
        (65535, vec![0x19, 0xff, 0xff]),
        (65536, vec![0x1a, 0x00, 0x01, 0x00, 0x00]),
        (4294967296, vec![0x1b, 0, 0, 0, 1, 0, 0, 0, 0]),
        (i64::MAX, vec![0x1b, 0x7f, 0xff, 0xff, 0xff, 0xff, 0xff, 0xff, 0xff]),
        (-1, vec![0x20]),
        (-25, vec![0x38, 24]),
        (i64::MIN, vec![0x3b, 0x7f, 0xff, 0xff, 0xff, 0xff, 0xff, 0xff, 0xff]),
    ];
    for (n, head) in cases {
        let mut expected = vec![0x82, 0x02, 0x81];
        expected.extend(head);
        let bytes = encode_expr(&int_lit(n));
        assert_eq!(bytes, expected, "encoding of {}", n);
        assert_eq!(decode_expr(&bytes).unwrap(), Expr::Int(n));
    }
}

#[test]
fn every_kind_of_expression_reads_back() {
    let e = and(vec![
        not(f()),
        t(),
        member(str("héllo ✓"), seq_lit(vec![str(""), int_lit(-7), seq_lit(vec![])])),
        eq(vec![ident("resource.project_id"), ident("subject.project_id")]),
    ]);
    let bytes = encode_expr(&e);
    let back = decode_expr(&bytes).unwrap();
    assert!(back.equals(&e));
    assert_eq!(back, e);
}

#[test]
fn long_text_reads_back() {
    let text: String = std::iter::repeat('x').take(70000).collect();
    let e = str(&text);
    let bytes = encode_expr(&e);
    assert_eq!(&bytes[..8], &[0x82, 0x01, 0x81, 0x7a, 0x00, 0x01, 0x11, 0x70]);
    assert_eq!(decode_expr(&bytes).unwrap(), e);
}

#[test]
fn bytes_that_are_no_expression_are_corruption() {
    let good = encode_expr(&str("me"));
    let mut longer = good.clone();
    longer.push(0);
    let mut shorter = good.clone();
    shorter.pop();
    let cases: Vec<Vec<u8>> = vec![
        vec![],
        vec![0x82],
        vec![0x82, 0x01, 0x81],
        vec![0x82, 0x03, 0x81, 0x00],
        vec![0x82, 0x01, 0x81, 0x61, 0xff],
        vec![0x82, 0x02, 0x81, 0x18, 0x05],
        vec![0x82, 0x02, 0x81, 0x1b, 0x80, 0, 0, 0, 0, 0, 0, 0],
        vec![0x82, 0x04, 0x81, 0xf6],
        vec![0x82, 0x06, 0x81, 0x81],
        vec![0x82, 0x06, 0x81, 0x9f, 0xff],
        longer,
        shorter,
    ];
    for bytes in cases {
        let err = decode_expr(&bytes).unwrap_err();
        assert_eq!(err.kind(), Kind::Corruption, "bytes {:?}", bytes);
    }
}

#[test]
fn corrupt_row_is_an_error_and_not_absence() {
    let rows = vec![
        PolicyRow::new("outlet", "create", vec![0xff]),
        PolicyRow::new("outlet", "delete", encode_expr(&t())),
        PolicyRow::new("inlet", "create", encode_expr(&f())),
    ];
    let repository = PolicySqlxDatabase::new(rows);
    let outlet = Resource::from("outlet");
    let err = repository.get_policy(&outlet, &Action::from("create")).unwrap_err();
    assert_eq!(err.kind(), Kind::Corruption);
    assert_eq!(repository.get_policy(&outlet, &Action::from("update")).unwrap(), None);
    assert_eq!(repository.get_policy(&outlet, &Action::from("delete")).unwrap(), Some(t()));
    let err = repository.get_policies_by_resource(&outlet).unwrap_err();
    assert_eq!(err.kind(), Kind::Corruption);
    let inlet = repository.get_policies_by_resource(&Resource::from("inlet")).unwrap();
    assert_eq!(inlet, vec![(Action::from("create"), f())]);
}

#[test]
fn set_policy_replaces_and_keeps_the_count() {
    let mut repository = PolicySqlxDatabase::create();
    let r = Resource::from("outlet");
    let a = Action::from("create");
    repository.set_policy(&r, &a, &t()).unwrap();
    repository.set_policy(&r, &a, &f()).unwrap();
    assert_eq!(repository.get_policy(&r, &a).unwrap(), Some(f()));
    assert_eq!(repository.get_policies_by_resource(&r).unwrap().len(), 1);
    assert_eq!(repository.rows().len(), 1);
}

#[test]
fn delete_policy_leaves_other_actions_alone() {
    let mut repository = PolicySqlxDatabase::create();
    let r = Resource::from("outlet");
    let other = Resource::from("inlet");
    repository.set_policy(&r, &Action::from("create"), &t()).unwrap();
    repository.set_policy(&r, &Action::from("delete"), &f()).unwrap();
    repository.set_policy(&other, &Action::from("delete"), &int_lit(3)).unwrap();
    repository.delete_policy(&r, &Action::from("delete")).unwrap();
    assert_eq!(repository.get_policy(&r, &Action::from("create")).unwrap(), Some(t()));
    assert_eq!(repository.get_policy(&r, &Action::from("delete")).unwrap(), None);
    assert_eq!(
        repository.get_policy(&other, &Action::from("delete")).unwrap(),
        Some(int_lit(3))
    );
    // deleting what is absent succeeds and changes nothing
    repository.delete_policy(&r, &Action::from("delete")).unwrap();
    assert_eq!(repository.get_policies_by_resource(&r).unwrap().len(), 1);
}

#[test]
fn loading_rows_lets_the_later_row_of_a_key_count() {
    let rows = vec![
        PolicyRow::new("outlet", "create", encode_expr(&t())),
        PolicyRow::new("outlet", "create", encode_expr(&f())),
    ];
    let repository = PolicySqlxDatabase::new(rows);
    assert_eq!(repository.rows().len(), 1);
    let found = repository.get_policy(&Resource::from("outlet"), &Action::from("create"));
    assert_eq!(found.unwrap(), Some(f()));
}
