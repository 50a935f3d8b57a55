use trivianetdmr::trivia::clean_markdown;
use trivianetdmr::trivia::scan_answer_line;
use trivianetdmr::trivia::scan_fact_line;
use trivianetdmr::trivia::scan_question_line;
use trivianetdmr::trivia::LineScan;
use trivianetdmr::trivia::TriviaQuestion;
use trivianetdmr::trivia::TriviaTopic;

#[test]
fn test_clean_markdown() {
    assert_eq!(clean_markdown("**Long John Silver.**"), "Long John Silver.");
    assert_eq!(clean_markdown("\"Land ho\\!\""), "\"Land ho!\"");
    assert_eq!(clean_markdown("1995\\."), "1995.");
    assert_eq!(
        clean_markdown("* **Answer:** **Mark Summers** (or \"Slappy\")."),
        "Answer: Mark Summers (or \"Slappy\")."
    );
}

#[test]
fn clean_markdown_keeps_lone_backslash_and_escaped_markers() {
    assert_eq!(clean_markdown("a\\b"), "a\\b");
    assert_eq!(clean_markdown("\\*not bold\\*"), "*not bold*");
    assert_eq!(clean_markdown("`code` _it_"), "code it");
    assert_eq!(clean_markdown("  \t**  x  **\n"), "x");
    assert_eq!(clean_markdown("\\"), "\\");
    assert_eq!(clean_markdown(""), "");
}

const PIRATE_DECK: &str = "### **10 Trivia Questions & Answers: Talk Like a Pirate Day**\n\
\n\
1. **Question:** Who co-founded International Talk Like a Pirate Day?\n\
   * **Answer:** **Mark Summers** (or \"Slappy\").\n\
   * **Net Control Fact:** Summers and co-founder John Baur started it in 1995\\.\n\
\n\
2. **Question:** What is a pirate's\n\
   favourite drink, *grog*, made of?\n\
   * **Answer:** Rum diluted\n\
   with water.\n\
\n\
3. **Question:** What does a lookout shout when land is sighted?\n\
   * **Answer:** \"Land ho\\!\"\r\n\
   * **Fact:** Often from the crow's nest.\r\n\
   and loudly\n";

#[test]
fn parses_a_pirate_deck() {
    let topic = TriviaTopic::parse_markdown(PIRATE_DECK);
    assert_eq!(topic.title, "Talk Like a Pirate Day");
    assert_eq!(topic.questions.len(), 3);

    let q1 = &topic.questions[0];
    assert_eq!(q1.number, 1);
    assert!(q1.question.contains("International Talk Like a Pirate Day"));
    assert_eq!(q1.answer, "Mark Summers (or \"Slappy\").");
    assert_eq!(
        q1.fact.as_deref(),
        Some("Summers and co-founder John Baur started it in 1995.")
    );

    let q2 = &topic.questions[1];
    assert_eq!(q2.number, 2);
    assert_eq!(q2.question, "What is a pirate's favourite drink, grog, made of?");
    assert_eq!(q2.answer, "Rum diluted with water.");
    assert!(q2.fact.is_none());

    let q3 = &topic.questions[2];
    assert_eq!(q3.number, 3);
    assert_eq!(q3.answer, "\"Land ho!\"");
    assert_eq!(q3.fact.as_deref(), Some("Often from the crow's nest. and loudly"));
}

#[test]
fn parses_the_readme_example_deck() {
    let deck = "### **10 Trivia Questions & Answers: Astronomy**\n\n1. **Question:** What is the closest planet to the Sun?\n   * **Answer:** Mercury.\n   * **Net Control Fact:** Mercury has no atmosphere and extreme temperature swings.\n";
    let topic = TriviaTopic::parse_markdown(deck);
    assert_eq!(topic.title, "Astronomy");
    assert_eq!(
        topic.questions,
        vec![TriviaQuestion {
            number: 1,
            question: "What is the closest planet to the Sun?".to_string(),
            answer: "Mercury.".to_string(),
            fact: Some("Mercury has no atmosphere and extreme temperature swings.".to_string()),
        }]
    );
}

#[test]
fn empty_deck_has_default_title() {
    let topic = TriviaTopic::parse_markdown("");
    assert_eq!(topic.title, "Trivia Net");
    assert!(topic.questions.is_empty());
    let topic = TriviaTopic::parse_markdown("just some text\n\n   \n");
    assert_eq!(topic.title, "Trivia Net");
    assert!(topic.questions.is_empty());
}

#[test]
fn header_titles() {
    assert_eq!(TriviaTopic::parse_markdown("# Space Trivia").title, "Space Trivia");
    assert_eq!(TriviaTopic::parse_markdown("## Deck: ").title, "Deck:");
    assert_eq!(TriviaTopic::parse_markdown("#\n## **A: B: C**").title, "B: C");
    assert_eq!(TriviaTopic::parse_markdown("# First\n# Second").title, "Second");
}

#[test]
fn numbers_default_to_position_and_tags_ignore_case() {
    let deck = "QUESTION: one?\nanswer: 1\nquestion: two?\nq 7 question: seven?\nQ99999999999999999999999 Question: big?";
    let topic = TriviaTopic::parse_markdown(deck);
    let numbers: Vec<usize> = topic.questions.iter().map(|q| q.number).collect();
    assert_eq!(numbers, vec![1, 1, 7, 3]);
    assert_eq!(topic.questions[0].answer, "1");
    assert_eq!(topic.questions[1].answer, "");
}

#[test]
fn answer_before_any_question_is_dropped() {
    let topic = TriviaTopic::parse_markdown("Answer: orphan\nmore\nQuestion: q\ncontinued");
    assert_eq!(topic.questions.len(), 1);
    assert_eq!(topic.questions[0].question, "q continued");
    assert_eq!(topic.questions[0].answer, "");
}

#[test]
fn unsliceable_tag_offset_is_reported() {
    // The Kelvin sign lowercases to a one-byte 'k', so the tag's byte offset
    // in the lowercase line falls inside a character of the line itself.
    let line = "\u{212A}\u{212A}\u{e9}question: x";
    assert!(TriviaTopic::try_parse_markdown(line).is_none());
    assert!(TriviaTopic::try_parse_markdown("Question: fine").is_some());
}

#[test]
fn new_topic_keeps_fields() {
    let q = TriviaQuestion {
        number: 3,
        question: "q".to_string(),
        answer: "a".to_string(),
        fact: None,
    };
    let t = TriviaTopic::new("T".to_string(), vec![q.clone()]);
    assert_eq!(t.title, "T");
    assert_eq!(t.questions, vec![q]);
}

#[test]
fn line_scans_with_given_lowercase() {
    let line: Vec<char> = "12. **QUESTION:** Why?".chars().collect();
    let lower: Vec<char> = "12. **question:** why?".chars().collect();
    match scan_question_line(&line, &lower, 5) {
        LineScan::Found((n, text)) => {
            assert_eq!(n, 12);
            assert_eq!(text.into_iter().collect::<String>(), "Why?");
        }
        _ => panic!("expected a question"),
    }
    let line: Vec<char> = "* Answer: **Yes**".chars().collect();
    let lower: Vec<char> = "* answer: **yes**".chars().collect();
    match scan_answer_line(&line, &lower) {
        LineScan::Found(text) => assert_eq!(text.into_iter().collect::<String>(), "Yes"),
        _ => panic!("expected an answer"),
    }
    let line: Vec<char> = "Net Control Fact: fun fact: more".chars().collect();
    let lower: Vec<char> = "net control fact: fun fact: more".chars().collect();
    match scan_fact_line(&line, &lower) {
        LineScan::Found(text) => assert_eq!(text.into_iter().collect::<String>(), "fun fact: more"),
        _ => panic!("expected a fact"),
    }
    let line: Vec<char> = "plain".chars().collect();
    assert!(matches!(scan_fact_line(&line, &line), LineScan::Absent));
    assert!(matches!(scan_answer_line(&line, &line), LineScan::Absent));
    assert!(matches!(scan_question_line(&line, &line, 1), LineScan::Absent));
    // a tag offset past the end of the line cannot be sliced
    let line: Vec<char> = "x".chars().collect();
    let lower: Vec<char> = "answer:".chars().collect();
    assert!(matches!(scan_answer_line(&line, &lower), LineScan::Unsliceable));
}

#[test]
fn cleaned_text_is_trimmed_and_marker_free() {
    for s in ["  *a* _b_ `c`  ", "\u{3000}**x**\u{85}", "plain text", "***", " _ "] {
        let c = clean_markdown(s);
        assert_eq!(c.trim(), c);
        assert!(!c.contains('*') && !c.contains('_') && !c.contains('`'), "{:?}", c);
    }
}

#[test]
fn one_question_per_question_line() {
    let deck = "# T\nQuestion: a\nAnswer: b\n\n2) question: c\n  # question: header, not a question\nFact: f\nno tag here\nQUESTION:\n";
    let topic = TriviaTopic::parse_markdown(deck);
    let question_lines = deck
        .lines()
        .map(|l| l.trim())
        .filter(|t| !t.is_empty() && !t.starts_with('#') && t.to_lowercase().contains("question:"))
        .count();
    assert_eq!(question_lines, 3);
    assert_eq!(topic.questions.len(), question_lines);
    assert_eq!(topic.questions[2].question, "");
    assert_eq!(topic.title, "header, not a question");
}

#[test]
fn title_comes_from_last_header_with_text() {
    assert_eq!(TriviaTopic::parse_markdown("# A\nQuestion: q\n# B: C\n#\n# **`**\n").title, "C");
    assert_eq!(TriviaTopic::parse_markdown("Question: q\n").title, "Trivia Net");
}

#[test]
fn blank_lines_change_nothing() {
    let base = "# T\nQuestion: q\ncontinued\nAnswer: a\nmore\nFact: f\nand more";
    let spaced = "\n  \n# T\n\t\nQuestion: q\n \ncontinued\nAnswer: a\n\u{3000}\nmore\nFact: f\n\nand more\n\n";
    assert_eq!(TriviaTopic::parse_markdown(base), TriviaTopic::parse_markdown(spaced));
}

#[test]
fn cleaning_only_leaves_characters_out() {
    for s in ["**a\\*b**", " x_y ", "\\.\\!", "plain"] {
        let c = clean_markdown(s);
        let mut rest = s.chars();
        assert!(c.chars().all(|ch| rest.any(|r| r == ch)), "{:?}", s);
        assert!(c.chars().count() <= s.chars().count());
    }
}

#[test]
fn lines_before_the_first_question_leave_no_trace() {
    let topic = TriviaTopic::parse_markdown(
        "Welcome to the net\nAnswer: stray\nFact: stray too\nQuestion: What band?\n",
    );
    assert_eq!(topic.questions.len(), 1);
    assert_eq!(topic.questions[0].question, "What band?");
    assert_eq!(topic.questions[0].answer, "");
    assert_eq!(topic.questions[0].fact, None);
}

#[test]
fn answers_and_facts_go_to_the_open_question() {
    let topic = TriviaTopic::parse_markdown(
        "Question: First?\nAnswer: One\nFact: Only fact\nQuestion: Second?\nmore words\n",
    );
    assert_eq!(topic.questions.len(), 2);
    assert_eq!(topic.questions[0].answer, "One");
    assert_eq!(topic.questions[0].fact.as_deref(), Some("Only fact"));
    assert_eq!(topic.questions[1].question, "Second? more words");
    assert_eq!(topic.questions[1].answer, "");
    assert_eq!(topic.questions[1].fact, None);
}

#[test]
fn plain_text_cleaning_drops_markers_and_trims() {
    assert_eq!(clean_markdown("  a*b_c`d  "), "abcd");
    assert_eq!(clean_markdown("**Bold** and _it_"), "Bold and it");
}

#[test]
fn blank_text_lines_leave_the_deck_unchanged() {
    let plain = "# Net: Radio\nQuestion: Q1\nAnswer: A1\n";
    let padded = " \t\n# Net: Radio\n   \nQuestion: Q1\n\t\nAnswer: A1\n  \n";
    assert_eq!(TriviaTopic::parse_markdown(plain), TriviaTopic::parse_markdown(padded));
}

#[test]
fn ascii_decks_always_parse() {
    let topic = TriviaTopic::try_parse_markdown("QUESTION: Loud?\nANSWER: Yes\nNET CONTROL FACT: Very\n")
        .expect("an ASCII deck parses");
    assert_eq!(topic.questions.len(), 1);
    assert_eq!(topic.questions[0].question, "Loud?");
    assert_eq!(topic.questions[0].answer, "Yes");
    assert_eq!(topic.questions[0].fact.as_deref(), Some("Very"));
}
