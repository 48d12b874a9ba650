use basiclings::config::{translate_variable_name, AutotesterConfig};
use basiclings::encode::variable_file_bytes;
use basiclings::grade::{
    full_text_match, prepare_case, run_tests, validate_cemu_test_state, EmulatorReport, GradeStep,
    ProgramTestResult, TestError,
};
use basiclings::lesson::{Test, Variable, VariableData};
use basiclings::record::FormatError;
use basiclings::tifloat::TiReal;
use basiclings::token::{render, tokenize, Token};

fn ti_real(negative: bool, exponent: i8, lead: &[u8]) -> TiReal {
    let mut digits = lead.to_vec();
    while digits.len() < 15 {
        digits.push(0);
    }
    TiReal { negative, exponent, digits }
}

fn number(name: &str, x: TiReal) -> Variable {
    Variable { name: name.to_string(), value: VariableData::RealNumber(x) }
}

fn text(regex: &str) -> Test {
    Test::FulltextMatch { regex: regex.to_string() }
}

fn finished(step: GradeStep) -> Result<ProgramTestResult, TestError> {
    match step {
        GradeStep::Finished(r) => r,
        GradeStep::Emulate(_) => panic!("expected a verdict"),
    }
}

fn ok_report(files: Vec<Option<Vec<u8>>>) -> EmulatorReport {
    EmulatorReport { success: true, exit_code: Some(0), outputs: files }
}

#[test]
fn translate_names() {
    assert_eq!(translate_variable_name("L1"), "L\u{2081}");
    assert_eq!(translate_variable_name("L6"), "L\u{2086}");
    assert_eq!(translate_variable_name("theta"), "\u{03B8}");
    assert_eq!(translate_variable_name("X"), "X");
    assert_eq!(translate_variable_name("L7"), "L7");
}

#[test]
fn group_fails_with_first_failure() {
    let program: Vec<Token> = vec![];
    let group = Test::Group(vec![
        text(".*"),
        Test::CEmu { input: vec![], output: vec![number("a", TiReal::zero())] },
    ]);
    let tests = vec![group];
    let step = run_tests(&program, &tests, &vec![]);
    assert!(matches!(step, GradeStep::Emulate(_)));
    let r = finished(run_tests(&program, &tests, &vec![ok_report(vec![None])]));
    match r {
        Ok(ProgramTestResult::Fail(reason)) => assert_eq!(reason, "Cannot find variable a."),
        other => panic!("{:?}", other),
    }
}

#[test]
fn group_of_passes_passes() {
    let program: Vec<Token> = vec![];
    let tests = vec![Test::Group(vec![text(".*"), text("")])];
    assert!(matches!(finished(run_tests(&program, &tests, &vec![])), Ok(ProgramTestResult::Pass)));
}

#[test]
fn top_level_passes_on_first_pass() {
    let program: Vec<Token> = vec![];
    let tests = vec![text("x"), text(".*"), text("y")];
    assert!(matches!(finished(run_tests(&program, &tests, &vec![])), Ok(ProgramTestResult::Pass)));
}

#[test]
fn top_level_reports_last_failure() {
    let program: Vec<Token> = vec![];
    let tests = vec![
        text("x"),
        Test::CEmu { input: vec![], output: vec![number("b", TiReal::zero())] },
    ];
    let r = finished(run_tests(&program, &tests, &vec![ok_report(vec![None])]));
    match r {
        Ok(ProgramTestResult::Fail(reason)) => assert_eq!(reason, "Cannot find variable b."),
        other => panic!("{:?}", other),
    }
}

#[test]
fn no_tests_fail_generically() {
    let program: Vec<Token> = vec![];
    match finished(run_tests(&program, &vec![], &vec![])) {
        Ok(ProgramTestResult::Fail(reason)) => assert_eq!(reason, "Tests failed."),
        other => panic!("{:?}", other),
    }
}

#[test]
fn crash_is_an_error_even_with_outputs() {
    let ans = number("Ans", ti_real(false, 0, &[4]));
    let file = variable_file_bytes(&ans).unwrap();
    let report = EmulatorReport { success: false, exit_code: Some(3), outputs: vec![Some(file)] };
    assert!(matches!(
        validate_cemu_test_state(&report, &vec![ans]),
        Err(TestError::CEmuCrashed(Some(3)))
    ));
}

#[test]
fn missing_ans_hints_at_type() {
    let ans = number("Ans", ti_real(false, 0, &[4]));
    match validate_cemu_test_state(&ok_report(vec![None]), &vec![ans]) {
        Ok(ProgramTestResult::Fail(reason)) => assert_eq!(
            reason,
            "Cannot find Ans; perhaps Ans is the wrong type at the end of your program."
        ),
        other => panic!("{:?}", other),
    }
}

#[test]
fn missing_named_variable_is_named() {
    let x = number("X", ti_real(false, 0, &[4]));
    match validate_cemu_test_state(&ok_report(vec![]), &vec![x]) {
        Ok(ProgramTestResult::Fail(reason)) => assert_eq!(reason, "Cannot find variable X."),
        other => panic!("{:?}", other),
    }
}

#[test]
fn corrupt_output_file_is_an_error() {
    let x = number("X", ti_real(false, 0, &[4]));
    assert!(matches!(
        validate_cemu_test_state(&ok_report(vec![Some(vec![1, 2, 3])]), &vec![x]),
        Err(TestError::TIFileParsing(_))
    ));
}

#[test]
fn end_to_end_ans_four() {
    let program = tokenize("4").unwrap();
    let expected = number("Ans", ti_real(false, 0, &[4]));
    let tests = vec![Test::CEmu { input: vec![], output: vec![expected] }];
    let req = match run_tests(&program, &tests, &vec![]) {
        GradeStep::Emulate(req) => req,
        GradeStep::Finished(r) => panic!("{:?}", r),
    };
    assert_eq!(req.exports, vec!["Ans".to_string()]);
    assert_eq!(req.expected_files, vec!["Ans.8xn".to_string()]);
    let produced = variable_file_bytes(&number("Ans", ti_real(false, 0, &[4]))).unwrap();
    let r = finished(run_tests(&program, &tests, &vec![ok_report(vec![Some(produced)])]));
    assert!(matches!(r, Ok(ProgramTestResult::Pass)));
    let wrong = variable_file_bytes(&number("Ans", ti_real(false, 0, &[5]))).unwrap();
    match finished(run_tests(&program, &tests, &vec![ok_report(vec![Some(wrong)])])) {
        Ok(ProgramTestResult::Fail(reason)) => assert_eq!(reason, "Incorrect value for variable Ans."),
        other => panic!("{:?}", other),
    }
}

#[test]
fn bad_pattern_is_an_error() {
    assert!(matches!(full_text_match("(", "A"), Err(TestError::Regex)));
}

#[test]
fn pattern_is_anchored() {
    assert!(matches!(full_text_match("B", "AB"), Ok(ProgramTestResult::Fail(_))));
    assert!(matches!(full_text_match("A.", "AB"), Ok(ProgramTestResult::Pass)));
}

#[test]
fn text_test_uses_rendered_program() {
    let program = tokenize("Ans+1").unwrap();
    assert_eq!(render(&program), "Ans+1");
    let tests = vec![text("Ans\\+1")];
    assert!(matches!(finished(run_tests(&program, &tests, &vec![])), Ok(ProgramTestResult::Pass)));
}

#[test]
fn case_request_files_in_order() {
    let program = vec![Token::OneByte(0x41)];
    let inputs = vec![number("A", ti_real(false, 0, &[2])), number("L1", ti_real(false, 0, &[3]))];
    let outputs = vec![number("L2", ti_real(false, 0, &[3]))];
    let req = prepare_case(&program, &inputs, &outputs).unwrap();
    let names: Vec<&str> = req.files.iter().map(|f| f.name.as_str()).collect();
    assert_eq!(names, vec!["A.8xn", "L1.8xn", "TESTPROG.8xp"]);
    assert_eq!(req.expected_files, vec!["L\u{2082}.8xn".to_string()]);
    let config = req.config("/r/ce.rom".to_string(), "/tmp/t");
    assert_eq!(config.rom, "/r/ce.rom");
    assert_eq!(config.target.name, "TESTPROG");
    assert!(!config.target.is_asm);
    assert_eq!(
        config.transfer_files,
        vec!["/tmp/t/A.8xn".to_string(), "/tmp/t/L1.8xn".to_string(), "/tmp/t/TESTPROG.8xp".to_string()]
    );
    assert_eq!(
        config.sequence,
        vec!["action|launch", "delay|2000", "key|on", "saveVar|L\u{2082}"]
    );
}

#[test]
fn descriptor_actions() {
    let mut c = AutotesterConfig::with_rom("x.rom".to_string());
    assert_eq!(c.sequence, vec!["action|launch", "delay|2000", "key|on"]);
    assert!(c.transfer_files.is_empty());
    c.add_export("theta");
    c.add_import("p".to_string());
    assert_eq!(c.sequence[3], "saveVar|\u{03B8}");
    assert_eq!(c.transfer_files, vec!["p".to_string()]);
}

#[test]
fn error_messages() {
    assert_eq!(
        TestError::CEmuCrashed(Some(139)).message(),
        "CEmu crashed during tests: exit status 139"
    );
    assert_eq!(
        TestError::CEmuCrashed(Some(-2147483648)).message(),
        "CEmu crashed during tests: exit status -2147483648"
    );
    assert_eq!(
        TestError::CEmuCrashed(None).message(),
        "CEmu crashed during tests: terminated by a signal"
    );
    assert_eq!(TestError::Io("denied".to_string()).message(), "Error occurred during tests: denied");
    assert_eq!(
        TestError::TIFileParsing(FormatError::BadMagic).message(),
        "Error parsing 8x file during tests:\nthe file signature is wrong"
    );
    assert!(TestError::NoRom.message().contains("\".rom\""));
    assert_eq!(TestError::Regex.message(), "Error parsing test regex");
}
