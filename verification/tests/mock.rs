use individuality::mock::{advance_to, new_config, ConfigRecord, System, TestExt};

#[test]
fn advance_to_moves_forward_only() {
    let mut system = System { block_number: 3 };
    advance_to(&mut system, 10);
    assert_eq!(system.block_number, 10);
    advance_to(&mut system, 4);
    assert_eq!(system.block_number, 10);
}

#[test]
fn test_ext_runs_the_closure() {
    let _config: ConfigRecord = new_config();
    let r = TestExt::new().execute_with(|| 40 + 2);
    assert_eq!(r, 42);
}
