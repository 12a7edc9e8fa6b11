use pytest_super_hooks::{check_source, fix_source};

fn fixed(src: &str) -> String {
    fix_source(src).unwrap_or_else(|| src.to_string())
}

#[test]
fn no_hook_names_no_reports() {
    let src = "class A:\n    def helper(self):\n        x = 1\n\n    def test_one(self):\n        pass\n\nclass B(A):\n    def setup_data(self):\n        return 1\n";
    assert!(check_source("test.py", src).is_empty());
    assert!(check_source("test.py", "x = 1\nprint(x)\n").is_empty());
    assert!(check_source("test.py", "").is_empty());
}

#[test]
fn module_level_hook_name_is_still_reported() {
    // A file without any class, whose function bears a mis-cased hook name.
    assert_eq!(
        check_source("test.py", "def teardown():\n    pass\n"),
        vec!["test.py:1 use correct casing: setUp / tearDown".to_string()]
    );
}

#[test]
fn noop_bodies_exempt_from_call_rule() {
    assert!(check_source("test.py", "class T:\n    def setUp(self):\n        pass\n").is_empty());
    assert!(check_source("test.py", "class T:\n    def tearDown(self):\n        pass\n").is_empty());
    assert_eq!(fix_source("class T:\n    def setUp(self):\n        pass\n"), None);
    assert_eq!(fix_source("class T:\n    def tearDown(self):\n        pass"), None);
}

#[test]
fn noop_body_with_wrong_casing_is_only_renamed() {
    let src = "class T:\n    def setup(self):\n        pass";
    let reports = check_source("test.py", src);
    assert_eq!(reports.len(), 1);
    assert!(reports[0].contains("correct casing"));
    assert_eq!(
        fix_source(src),
        Some("class T:\n    def setUp(self):\n        pass".to_string())
    );
    let src = "class T:\n    def Teardown(self):\n        pass\n";
    assert_eq!(
        fix_source(src),
        Some("class T:\n    def tearDown(self):\n        pass\n".to_string())
    );
}

#[test]
fn second_fix_changes_nothing() {
    let inputs = [
        "class T:\n    def setUp(self):\n        self.value = 1",
        "class T:\n    def setup(self):\n        super().setUp()\n        x = 1\n\n    def tearDown(self):\n        y = 2\n",
        "class A:\n    def setUp(self):\n        a = 1\n\nclass B:\n    def Teardown(self):\n        b = 2\n        # done\n",
        "class T:\n    def setUp(self):\n        \"\"\"Doc.\"\"\"\n",
    ];
    for src in inputs {
        let once = fix_source(src).expect("the first fix changes the text");
        assert_eq!(fix_source(&once), None, "second fix of {:?}", src);
    }
}

#[test]
fn fix_then_check_is_clean() {
    let inputs = [
        "class T:\n    def setUp(self):\n        super().setUp()\n        x=1",
        "class T:\n    def Setup(self):\n        x = 1\n",
        "class T:\n    def teardown(self):\n        super().tearDown()\n        self.x = 1\n    def setUp(self):\n        super(T, self).setUp()\n",
        "class Outer:\n    class Inner:\n        def tearDown(self):\n            z = 3\n    def setup(self):\n        pass\n",
        "class T:\n    @decorate\n    def setUp(self):\n        x = 1\n",
    ];
    for src in inputs {
        assert!(!check_source("test.py", src).is_empty());
        let out = fixed(src);
        assert!(check_source("test.py", &out).is_empty(), "after fix: {:?}", out);
    }
}

#[test]
fn missing_call_appended_after_body() {
    let src = "class T:\n    def setUp(self):\n        self.value = 1";
    let out = fixed(src);
    assert_eq!(out, "class T:\n    def setUp(self):\n        self.value = 1\n        super().setUp()");
    assert!(check_source("test.py", &out).is_empty());
}

#[test]
fn call_before_other_statements_reported_once() {
    let src = "class T:\n    def setUp(self):\n        super().setUp()\n        x=1";
    let reports = check_source("test.py", src);
    assert_eq!(reports.len(), 1);
    assert!(reports[0].contains("must be the last line"));
    assert_eq!(reports[0], "test.py:2 super().setUp() must be the last line");
}

#[test]
fn wrong_casing_with_pass_reported_once() {
    let src = "class T:\n    def setup(self):\n        pass";
    assert_eq!(
        check_source("test.py", src),
        vec!["test.py:2 use correct casing: setUp / tearDown".to_string()]
    );
}

#[test]
fn sibling_classes_with_correct_hooks() {
    let src = "class A:\n    def setUp(self):\n        a = 1\n        super().setUp()\n\nclass B:\n    def tearDown(self):\n        b = 1\n        super().tearDown()\n";
    assert!(check_source("test.py", src).is_empty());
    assert_eq!(fix_source(src), None);
}

#[test]
fn final_line_break_is_kept() {
    let src = "class T:\n    def setUp(self):\n        x = 1\n";
    assert_eq!(
        fix_source(src),
        Some("class T:\n    def setUp(self):\n        x = 1\n        super().setUp()\n".to_string())
    );
}

#[test]
fn module_of_exempt_methods_is_left_alone() {
    let src = "class EmptyTest:\n    def setUp(self):\n        pass\n\n    def tearDown(self):\n        pass\n\n    def helper(self):\n        x = 1\n";
    assert_eq!(fix_source(src), None);
    assert!(check_source("test.py", src).is_empty());
}

#[test]
fn miscased_name_reported_once_whatever_the_body() {
    for body in ["pass", "super().setUp()", "x = 1"] {
        let src = format!("class T:\n    def setup(self):\n        {}\n", body);
        assert_eq!(
            check_source("t.py", &src),
            vec!["t.py:2 use correct casing: setUp / tearDown".to_string()]
        );
    }
}
