use classy::prereq::{normalize, parse_prerequisites, parse_text, simplified, Overrides, ParseErrorKind};
use classy::token::{
    render_tokens, CourseId, LogicalOp, PermissionKind, SeniorityLevel, SpecialKind, Standing,
    Token,
};

fn course(letters: &str, numbers: &str) -> CourseId {
    CourseId::make(letters, numbers).unwrap()
}

fn prereq(letters: &str, numbers: &str) -> Token {
    Token::CoursePrereq(course(letters, numbers))
}

fn coreq(letters: &str, numbers: &str) -> Token {
    Token::CourseCoreq(course(letters, numbers))
}

fn junior_senior_group() -> Vec<Token> {
    vec![
        Token::group_start(),
        Token::exactly(Standing::Junior),
        Token::or_op(),
        Token::exactly(Standing::Senior),
        Token::group_end(),
    ]
}

#[test]
fn course_ids_normalize_to_uppercase() {
    let id = course("bme", "306");
    assert_eq!(id.id_string(), "BME 306");
    assert_eq!(id.letters().as_str(), "BME");
    assert_eq!(id.numbers().as_str(), "306");
}

#[test]
fn course_id_rejects_bad_shapes() {
    assert!(CourseId::make("b", "306").is_none());
    assert!(CourseId::make("abcde", "306").is_none());
    assert!(CourseId::make("bme", "3069").is_none());
    assert!(CourseId::make("bme", "").is_none());
    assert!(CourseId::make("bme", "30a").is_none());
    assert!(CourseId::make("bm3", "306").is_none());
}

#[test]
fn normalization_splits_lowercases_and_drops_label() {
    let words = normalize("Prerequisite BME 306,\tand/or\n(CH 115)");
    let expected = vec!["bme", "306", "and", "or", "(", "ch", "115", ")"];
    let got: Vec<&str> = words.iter().map(|w| w.as_str()).collect();
    assert_eq!(got, expected);
}

#[test]
fn chain_of_courses_alternates_with_and() {
    let tokens = parse_text("CS 115 and MA 121").unwrap();
    assert_eq!(tokens, vec![prereq("cs", "115"), Token::and_op(), prereq("ma", "121")]);
}

#[test]
fn nested_groups_and_standings_tokenize() {
    let tokens =
        parse_text("BME 306 and BME 482 and (Grad Student or (Junior or Senior))").unwrap();
    let expected = vec![
        prereq("bme", "306"),
        Token::and_op(),
        prereq("bme", "482"),
        Token::and_op(),
        Token::group_start(),
        Token::group_start(),
        Token::exactly(Standing::Graduate),
        Token::or_op(),
        Token::exactly(Standing::Doctorate),
        Token::group_end(),
        Token::or_op(),
        Token::group_start(),
        Token::exactly(Standing::Junior),
        Token::or_op(),
        Token::exactly(Standing::Senior),
        Token::group_end(),
        Token::group_end(),
    ];
    assert_eq!(tokens, expected);
}

#[test]
fn instructor_permission_is_one_token() {
    let tokens = parse_text("instructor permission").unwrap();
    assert_eq!(tokens, vec![Token::Permission(PermissionKind::Instructor)]);
}

#[test]
fn instructor_permission_required_is_greedy() {
    let tokens = parse_text("permission of instructor").unwrap();
    // The greedy filler consumes "of"; the following "instructor" starts a
    // second permission token.
    assert_eq!(
        tokens,
        vec![
            Token::Permission(PermissionKind::Instructor),
            Token::Permission(PermissionKind::Instructor),
        ]
    );
}

#[test]
fn coreq_course_tokenizes() {
    let tokens = parse_text("CoReq CH 116").unwrap();
    assert_eq!(tokens, vec![coreq("ch", "116")]);
}

#[test]
fn trailing_coreq_marks_concurrent_enrollment() {
    let tokens = parse_text("ch 116 coreq").unwrap();
    assert_eq!(tokens, vec![coreq("ch", "116")]);
}

#[test]
fn pre_coreq_expands_to_either_way_group() {
    let tokens = parse_text("pre- co-req ch 116").unwrap();
    assert_eq!(
        tokens,
        vec![Token::group_start(), prereq("ch", "116"), coreq("ch", "116"), Token::group_end()]
    );
}

#[test]
fn at_least_a_junior_expands() {
    let tokens = parse_text("at least a junior").unwrap();
    assert_eq!(tokens, junior_senior_group());
}

#[test]
fn at_least_junior_without_article_expands() {
    let tokens = parse_text("at least junior").unwrap();
    assert_eq!(tokens, junior_senior_group());
}

#[test]
fn junior_standing_expands() {
    let tokens = parse_text("junior standing").unwrap();
    assert_eq!(tokens, junior_senior_group());
}

#[test]
fn no_freshmen_or_sophomores_cohort_expands() {
    let tokens = parse_text("no freshmen or sophomores cohort").unwrap();
    assert_eq!(tokens, junior_senior_group());
}

#[test]
fn graduate_without_only_admits_doctoral() {
    let tokens = parse_text("graduate student").unwrap();
    assert_eq!(
        tokens,
        vec![
            Token::group_start(),
            Token::exactly(Standing::Graduate),
            Token::or_op(),
            Token::exactly(Standing::Doctorate),
            Token::group_end(),
        ]
    );
}

#[test]
fn graduate_only_is_exact() {
    let tokens = parse_text("grad students only").unwrap();
    assert_eq!(tokens, vec![Token::exactly(Standing::Graduate)]);
}

#[test]
fn seniors_students_only_is_exact_senior() {
    let tokens = parse_text("senior students only").unwrap();
    assert_eq!(tokens, vec![Token::exactly(Standing::Senior)]);
}

#[test]
fn freshman_is_exact() {
    let tokens = parse_text("freshmen").unwrap();
    assert_eq!(tokens, vec![Token::exactly(Standing::Freshman)]);
}

#[test]
fn doctoral_is_exact() {
    let tokens = parse_text("phd students").unwrap();
    assert_eq!(tokens, vec![Token::exactly(Standing::Doctorate)]);
}

#[test]
fn pinnacle_scholars_only_tokenizes() {
    let tokens = parse_text("pinnacle scholars only").unwrap();
    assert_eq!(tokens, vec![Token::Special(SpecialKind::Pinnacle(true))]);
}

#[test]
fn cgpa_threshold_tokenizes() {
    let tokens = parse_text("with cgpa => 3.5").unwrap();
    assert_eq!(tokens, vec![Token::Special(SpecialKind::Cgpa(String::from("3.5")))]);
}

#[test]
fn complete_is_dropped_as_filler() {
    let tokens = parse_text("complete CS 115").unwrap();
    assert_eq!(tokens, vec![prereq("cs", "115")]);
}

#[test]
fn glued_course_id_splits_at_first_digit() {
    let tokens = parse_text("ma125").unwrap();
    assert_eq!(tokens, vec![prereq("ma", "125")]);
}

#[test]
fn commas_and_slashes_separate() {
    let tokens = parse_text("ch 115, ch 116/ch 117").unwrap();
    assert_eq!(tokens, vec![prereq("ch", "115"), prereq("ch", "116"), prereq("ch", "117")]);
}

#[test]
fn malformed_four_digit_suffix_is_rejected() {
    let err = parse_text("bme 3069").unwrap_err();
    assert_eq!(err.kind, ParseErrorKind::MalformedCourseId);
    assert_eq!(err.word, Some(String::from("3069")));
}

#[test]
fn malformed_long_letters_are_rejected() {
    let err = parse_text("sophomore 101").unwrap_err();
    assert_eq!(err.kind, ParseErrorKind::MalformedCourseId);
    assert_eq!(err.word, Some(String::from("sophomore")));
}

#[test]
fn lone_unknown_word_runs_out_of_input() {
    let err = parse_text("sophomore").unwrap_err();
    assert_eq!(err.kind, ParseErrorKind::UnexpectedEndOfInput);
}

#[test]
fn dangling_at_reports_end_of_input() {
    let err = parse_text("at").unwrap_err();
    assert_eq!(err.kind, ParseErrorKind::UnexpectedEndOfInput);
    assert_eq!(err.word, None);
}

#[test]
fn at_least_senior_is_unexpected() {
    let err = parse_text("at least a senior").unwrap_err();
    assert_eq!(err.kind, ParseErrorKind::UnexpectedToken);
    assert_eq!(err.word, Some(String::from("senior")));
}

#[test]
fn with_gpa_misspelling_is_unexpected() {
    let err = parse_text("with gpa => 3.0").unwrap_err();
    assert_eq!(err.kind, ParseErrorKind::UnexpectedToken);
    assert_eq!(err.word, Some(String::from("gpa")));
}

#[test]
fn unknown_dean_code_is_reported() {
    let err = parse_text("need permission of the dean 598").unwrap_err();
    assert_eq!(err.kind, ParseErrorKind::UnknownDeanCode);
    assert_eq!(err.word, Some(String::from("598")));
}

#[test]
fn dean_codes_map_to_permissions() {
    let under = parse_text("need permission of the dean 498").unwrap();
    assert_eq!(under, vec![Token::Permission(PermissionKind::DeanUndergraduate)]);
    let grad = parse_text("need permission of the dean 698").unwrap();
    assert_eq!(grad, vec![Token::Permission(PermissionKind::DeanGraduate)]);
}

#[test]
fn override_table_wins_over_text() {
    let mut overrides = Overrides::new();
    let fixed = vec![Token::Permission(PermissionKind::Instructor)];
    overrides.set(String::from("BME 482"), fixed);
    let tokens =
        parse_prerequisites(&overrides, "BME 482", "https://example.test/bme482", "utter ?? gibberish !!")
            .unwrap();
    assert_eq!(tokens, vec![Token::Permission(PermissionKind::Instructor)]);
}

#[test]
fn override_table_later_entry_replaces_earlier() {
    let mut overrides = Overrides::new();
    overrides.set(String::from("CS 115"), vec![Token::exactly(Standing::Freshman)]);
    overrides.set(String::from("CS 115"), vec![Token::exactly(Standing::Senior)]);
    let tokens = parse_prerequisites(&overrides, "CS 115", "link", "ignored 999999").unwrap();
    assert_eq!(tokens, vec![Token::exactly(Standing::Senior)]);
}

#[test]
fn errors_carry_course_and_link_context() {
    let overrides = Overrides::new();
    let err = parse_prerequisites(&overrides, "BME 482", "https://example.test/bme482", "bme 3069")
        .unwrap_err();
    assert_eq!(err.kind, ParseErrorKind::MalformedCourseId);
    assert_eq!(err.course_id, "BME 482");
    assert_eq!(err.link, "https://example.test/bme482");
    assert_eq!(
        err.message(),
        "malformed course id at \"3069\" for course BME 482 (https://example.test/bme482)"
    );
}

#[test]
fn rendering_is_canonical_single_line() {
    assert_eq!(Token::exactly(Standing::Junior).render(), "Exactly Junior");
    assert_eq!(Token::at_minimum(Standing::Sophomore).render(), "Minimum Sophomore");
    assert_eq!(prereq("bme", "306").render(), "BME 306");
    assert_eq!(coreq("ch", "116").render(), "Corequisite CH 116");
    assert_eq!(Token::group_start().render(), "(");
    assert_eq!(Token::group_end().render(), ")");
    assert_eq!(Token::or_op().render(), "or");
    assert_eq!(Token::and_op().render(), "and");
    assert_eq!(Token::Logical(LogicalOp::Equivalence).render(), "equivalent to");
    assert_eq!(
        Token::Permission(PermissionKind::DeanUndergraduate).render(),
        "Undergraduate Dean Permission"
    );
    assert_eq!(Token::Special(SpecialKind::Major(String::from("Music"))).render(), "Major: Music");
    assert_eq!(Token::Special(SpecialKind::Pinnacle(true)).render(), "Pinnacle Scholar");
    assert_eq!(Token::Special(SpecialKind::Cgpa(String::from("3.5"))).render(), "Minimum CGPA 3.5");
}

#[test]
fn rendering_a_sequence_joins_with_spaces() {
    let tokens = parse_text("at least a junior").unwrap();
    assert_eq!(render_tokens(&tokens), "( Exactly Junior or Exactly Senior )");
}

#[test]
fn rendering_is_a_one_way_projection() {
    // Rendering flattens grouping to text; re-tokenizing the rendering is
    // not expected to give back the same sequence, and is not tested.
    let tokens = parse_text("bme 306 and (junior or senior)").unwrap();
    assert_eq!(render_tokens(&tokens), "BME 306 and ( Exactly Junior or Exactly Senior )");
}

#[test]
fn simplification_currently_returns_sequences_unchanged() {
    let tokens = parse_text("junior or senior").unwrap();
    let expected = parse_text("junior or senior").unwrap();
    assert_eq!(simplified(tokens), expected);
}

#[test]
fn sequences_of_seniority_levels_compare_structurally() {
    assert_eq!(SeniorityLevel::Exact(Standing::Junior), SeniorityLevel::Exact(Standing::Junior));
    assert_ne!(
        SeniorityLevel::Exact(Standing::Junior),
        SeniorityLevel::Minimum(Standing::Junior)
    );
}

#[test]
fn empty_text_yields_no_tokens() {
    assert_eq!(parse_text("").unwrap(), Vec::<Token>::new());
    assert_eq!(parse_text(" \t\n ").unwrap(), Vec::<Token>::new());
}

#[test]
fn lone_label_yields_no_tokens() {
    assert_eq!(parse_text("Prerequisite").unwrap(), Vec::<Token>::new());
}

#[test]
fn rendering_nothing_is_empty() {
    assert_eq!(render_tokens(&Vec::new()), "");
}
