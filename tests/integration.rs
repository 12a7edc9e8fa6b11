use pytest_super_hooks::check_source;

#[test]
fn valid_teardown() {
    let src = r#"
class T:
    def tearDown(self):
        x = 1
        super().tearDown()
"#;
    assert!(check_source("test.py", src).is_empty());
}

#[test]
fn invalid_teardown() {
    let src = r#"
class T:
    def tearDown(self):
        super().tearDown()
        x = 1
"#;
    assert_eq!(check_source("test.py", src).len(), 1);
}
