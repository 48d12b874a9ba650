use basiclings::lesson::{Lesson, VariableData};
use basiclings::session::{MainPrompt, Save};
use basiclings::submission::{filter_submission, process_submission};
use basiclings::tifloat::TiReal;
use basiclings::token::{byte_count, tokenize, tokens_to_bytes, Token};
use std::collections::BTreeSet;

#[test]
fn byte_count_of_tokens() {
    let tokens = vec![Token::OneByte(1), Token::TwoByte(0x5d, 1), Token::OneByte(2)];
    assert_eq!(byte_count(&tokens), 4);
    assert_eq!(tokens_to_bytes(&tokens), vec![1, 0x5d, 1, 2]);
    assert_eq!(byte_count(&[]), 0);
}

#[test]
fn tokenize_known_and_unknown() {
    assert_eq!(tokenize("Ans").unwrap(), vec![Token::OneByte(0x72)]);
    assert!(tokenize("\u{1F600}").is_none());
    assert_eq!(tokenize("").unwrap(), vec![]);
}

#[test]
fn submission_drops_blank_and_comment_lines() {
    assert_eq!(filter_submission("// note\n\nA\r\n//x\nB\n"), "A\nB");
    assert_eq!(filter_submission(""), "");
    assert_eq!(filter_submission("A"), "A");
    assert_eq!(filter_submission("/A\n"), "/A");
    let tokens = process_submission("// c\nA\nB".to_string()).unwrap();
    assert_eq!(tokens_to_bytes(&tokens), vec![0x41, 0x3f, 0x42]);
}

#[test]
fn byte_threshold_of_lesson() {
    let lesson = Lesson {
        id: 1,
        name: "One".to_string(),
        requirements: BTreeSet::new(),
        starting_program: "Ans+1".to_string(),
        required_savings: 1,
        brief_description: None,
        tests: vec![],
    };
    assert_eq!(lesson.byte_threshold(), Some(2));
    let greedy = Lesson { required_savings: 4, ..lesson };
    assert_eq!(greedy.byte_threshold(), None);
}

#[test]
fn fresh_save() {
    let s = Save::default();
    assert_eq!(s.unlocked_lessons, BTreeSet::from([0]));
    assert!(s.completed_lessons.is_empty());
    assert!(s.attempts.is_empty());
}

#[test]
fn prompt_commands() {
    let p = MainPrompt;
    for c in ["help", "select", "next", "retry", "quit", "progress", "review"] {
        assert!(p.validate(c));
    }
    assert!(!p.validate("hel"));
    assert!(!p.validate(""));
}

#[test]
fn file_extensions() {
    assert_eq!(VariableData::String("A".to_string()).file_extension(), "8xs");
    assert_eq!(VariableData::RealList(vec![]).file_extension(), "8xl");
    assert_eq!(VariableData::RealNumber(TiReal::zero()).file_extension(), "8xn");
}

#[test]
fn prompt_suggestions() {
    let p = MainPrompt;
    assert_eq!(p.get_suggestions("quit"), vec!["quit".to_string()]);
    assert!(p.get_suggestions("zzz").is_empty());
    let all = p.get_suggestions("");
    assert_eq!(all.len(), 7);
    let re = p.get_suggestions("re");
    assert!(re.contains(&"retry".to_string()));
    assert!(re.contains(&"review".to_string()));
    assert!(!re.contains(&"help".to_string()));
}

#[test]
fn prompt_completion() {
    let p = MainPrompt;
    assert_eq!(p.get_completion("quit", Some("help".to_string())), Some("help".to_string()));
    assert_eq!(p.get_completion("quit", None), Some("quit".to_string()));
    assert_eq!(p.get_completion("zzz", None), None);
}

#[test]
fn completing_a_lesson_unlocks_the_next() {
    let mut s = Save::default();
    let lessons = vec![(0u16, vec![]), (1, vec![0]), (2, vec![0, 1]), (3, vec![])];
    let unlocked = s.complete_lesson(0, &lessons);
    assert_eq!(unlocked, vec![1, 3]);
    assert_eq!(s.completed_lessons, BTreeSet::from([0]));
    assert_eq!(s.unlocked_lessons, BTreeSet::from([1, 3]));
    let unlocked = s.complete_lesson(1, &lessons);
    assert_eq!(unlocked, vec![2]);
    assert_eq!(s.unlocked_lessons, BTreeSet::from([2, 3]));
    assert_eq!(s.completed_lessons, BTreeSet::from([0, 1]));
}
