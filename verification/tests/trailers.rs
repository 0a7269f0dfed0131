use clap::Arg;
use stgit::error::Error;
use stgit::trailers::plan_trailers;

fn pair(key: &str, value: &str) -> (String, String) {
    (key.to_string(), value.to_string())
}

#[test]
fn val_ind_occ() {
    let m = clap::Command::new("myapp")
        .arg(
            Arg::new("sign-off")
                .long("sign-off")
                .num_args(0..=1)
                .default_missing_value("")
                .require_equals(true)
                .action(clap::ArgAction::Append),
        )
        .arg(
            Arg::new("ack")
                .long("ack")
                .num_args(0..=1)
                .default_missing_value("")
                .require_equals(true)
                .action(clap::ArgAction::Append),
        )
        .arg(Arg::new("opt").short('o').action(clap::ArgAction::Count))
        .get_matches_from(vec![
            "myapp",          // 0
            "-o",             // 1
            "--sign-off=AAA", // 2 3
            "--ack",          // 4 5 <- phantom index for default value
            "--sign-off",     // 6 7
            "-o",             // 8
            "--ack=BBB",      // 9 10
            "--sign-off=CCC", // 11 12
        ]);
    let sign_off_values = m.get_many::<String>("sign-off").unwrap();
    let sign_off_indices = m.indices_of("sign-off").unwrap();
    let ack_values = m.get_many::<String>("ack").unwrap();
    let ack_indices = m.indices_of("ack").unwrap();

    assert_eq!(3, sign_off_values.len());
    assert_eq!(3, sign_off_indices.len());
    assert_eq!(vec![3, 7, 12], sign_off_indices.collect::<Vec<_>>());
    assert_eq!(vec!["AAA", "", "CCC"], sign_off_values.collect::<Vec<_>>());

    assert_eq!(2, ack_values.len());
    assert_eq!(2, ack_indices.len());
    assert_eq!(vec![5, 10], ack_indices.collect::<Vec<_>>());
    assert_eq!(vec!["", "BBB"], ack_values.collect::<Vec<_>>());
}

#[test]
fn trailers_come_in_the_order_of_the_command_line() {
    let signoff = vec![(3, "AAA".to_string()), (7, String::new()), (12, "CCC".to_string())];
    let ack = vec![(5, String::new()), (10, "BBB".to_string())];
    let plan = plan_trailers(&signoff, &ack, &Vec::new(), None, b"A U Thor", b"author@example.com");
    assert_eq!(
        plan,
        Ok(vec![
            pair("Signed-off-by", "AAA"),
            pair("Acked-by", "A U Thor <author@example.com>"),
            pair("Signed-off-by", "A U Thor <author@example.com>"),
            pair("Acked-by", "BBB"),
            pair("Signed-off-by", "CCC"),
        ])
    );
}

#[test]
fn automatic_trailer_comes_first() {
    let review = vec![(4, "R <r@example.com>".to_string())];
    let signoff = vec![(2, String::new())];
    let plan = plan_trailers(
        &signoff,
        &Vec::new(),
        &review,
        Some("Signed-off-by"),
        b"A U Thor",
        b"author@example.com",
    );
    assert_eq!(
        plan,
        Ok(vec![
            pair("Signed-off-by", "A U Thor <author@example.com>"),
            pair("Signed-off-by", "A U Thor <author@example.com>"),
            pair("Reviewed-by", "R <r@example.com>"),
        ])
    );
}

#[test]
fn options_at_the_same_position_keep_their_order() {
    let signoff = vec![(0, "S".to_string())];
    let ack = vec![(0, "A".to_string())];
    let review = vec![(0, "R".to_string())];
    let plan = plan_trailers(&signoff, &ack, &review, Some("Auto-by"), b"n", b"e");
    assert_eq!(
        plan,
        Ok(vec![
            pair("Signed-off-by", "S"),
            pair("Acked-by", "A"),
            pair("Reviewed-by", "R"),
            pair("Auto-by", "n <e>"),
        ])
    );
}

#[test]
fn nothing_to_add_does_not_look_at_the_signature() {
    let none: Vec<(usize, String)> = Vec::new();
    assert_eq!(plan_trailers(&none, &none, &none, None, b"\xff", b"\xfe"), Ok(Vec::new()));
}

#[test]
fn trailers_need_a_signature_that_is_text() {
    let none: Vec<(usize, String)> = Vec::new();
    let ack = vec![(1, "given".to_string())];
    assert_eq!(
        plan_trailers(&none, &ack, &none, None, b"\xff", b"e@x"),
        Err(Error::NonUtf8Signature)
    );
    assert_eq!(
        plan_trailers(&none, &none, &none, Some("Signed-off-by"), b"name", b"\xc3"),
        Err(Error::NonUtf8Signature)
    );
    assert_eq!(
        plan_trailers(&none, &none, &none, Some("Signed-off-by"), "Zoë".as_bytes(), b"z@x"),
        Ok(vec![pair("Signed-off-by", "Zoë <z@x>")])
    );
}
