//! The prerequisite parser: normalizes a raw prerequisite sentence into
//! lowercase words, then scans the words left to right, one lookahead word
//! and no backtracking, emitting the tokens of `crate::token`.

use vstd::prelude::*;

use crate::text::{chars_of, is_digit_char, lower_char, spec_is_digit, spec_lower, str_eq, string_of};
use crate::token::{
    duplicate_tokens, spec_make_course_id, valid_letters, valid_numbers, CourseId, CourseIdModel, LogicalOp, PermissionKind, SeniorityLevel,
    SpecialKind, SpecialModel, Standing, Token, TokenModel,
};

verus! {

// ---------------------------------------------------------------------------
// Normalization: lowercase the text, set parentheses apart, treat commas and
// slashes as separators, split on whitespace, and drop the leading label
// "prerequisite".
// ---------------------------------------------------------------------------

/// The characters that separate words: space, newline and tab. Newlines and
/// tabs are thereby stripped: no word ever contains one.
pub open spec fn spec_is_ws(c: char) -> bool {
    c == ' ' || c == '\n' || c == '\t'
}

/// What one character of the raw text contributes after normalization:
/// parentheses become words of their own, commas and slashes become
/// separators, everything else is lowercased and kept.
pub open spec fn spec_expand_char(c: char) -> Seq<char> {
    if c == '(' || c == ')' {
        seq![' ', c, ' ']
    } else if c == ',' || c == '/' {
        seq![' ']
    } else {
        seq![spec_lower(c)]
    }
}

/// The text after lowercasing and separator rewriting, before the split:
/// the concatenation of what each character contributes.
pub open spec fn spec_prepared(text: Seq<char>) -> Seq<char>
    decreases text.len(),
{
    if text.len() == 0 {
        Seq::empty()
    } else {
        spec_prepared(text.drop_last()) + spec_expand_char(text.last())
    }
}

/// Splits into maximal nonempty runs of non-whitespace characters; `cur` is
/// the run read so far.
pub open spec fn spec_split_acc(s: Seq<char>, cur: Seq<char>) -> Seq<Seq<char>>
    decreases s.len(),
{
    if s.len() == 0 {
        if cur.len() == 0 {
            Seq::empty()
        } else {
            seq![cur]
        }
    } else if spec_is_ws(s[0]) {
        if cur.len() == 0 {
            spec_split_acc(s.drop_first(), Seq::empty())
        } else {
            seq![cur] + spec_split_acc(s.drop_first(), Seq::empty())
        }
    } else {
        spec_split_acc(s.drop_first(), cur.push(s[0]))
    }
}

/// The word sequence that the tokenizer consumes: the prepared text split on
/// whitespace, with a leading literal word "prerequisite" dropped.
pub open spec fn spec_words(text: Seq<char>) -> Seq<Seq<char>> {
    let all = spec_split_acc(spec_prepared(text), Seq::empty());
    if all.len() > 0 && all[0] == "prerequisite"@ {
        all.drop_first()
    } else {
        all
    }
}

/// Normalizes a raw prerequisite sentence into the lowercase words the
/// tokenizer consumes.
pub fn normalize(text: &str) -> (words: Vec<String>)
    ensures
        words.deep_view() == spec_words(text@),
{
    let cs = chars_of(text);
    let n = cs.len();
    let mut prepared: Vec<char> = Vec::new();
    for i in 0..n
        invariant
            n == cs@.len(),
            cs@ == text@,
            prepared@ == spec_prepared(text@.take(i as int)),
    {
        let c = cs[i];
        let ghost old_prepared = prepared@;
        if c == '(' || c == ')' {
            prepared.push(' ');
            prepared.push(c);
            prepared.push(' ');
        } else if c == ',' || c == '/' {
            prepared.push(' ');
        } else {
            prepared.push(lower_char(c));
        }
        proof {
            assert(prepared@ =~= old_prepared + spec_expand_char(text@[i as int]));
            assert(text@.take(i + 1).drop_last() =~= text@.take(i as int));
            assert(text@.take(i + 1).last() == text@[i as int]);
            assert(prepared@ == spec_prepared(text@.take(i + 1)));
        }
    }
    proof {
        assert(text@.take(n as int) =~= text@);
    }

    // Split the prepared characters on whitespace.
    let m = prepared.len();
    let mut words: Vec<String> = Vec::new();
    let mut cur: Vec<char> = Vec::new();
    proof {
        assert(prepared@.skip(0) =~= prepared@);
        assert(words.deep_view() + spec_split_acc(prepared@, Seq::empty()) =~= spec_split_acc(
            prepared@,
            Seq::empty(),
        ));
    }
    for i in 0..m
        invariant
            m == prepared@.len(),
            spec_split_acc(prepared@, Seq::empty()) == words.deep_view() + spec_split_acc(
                prepared@.skip(i as int),
                cur@,
            ),
    {
        let c = prepared[i];
        proof {
            assert(prepared@.skip(i as int).drop_first() =~= prepared@.skip(i + 1));
            assert(prepared@.skip(i as int)[0] == prepared@[i as int]);
        }
        if c == ' ' || c == '\n' || c == '\t' {
            if cur.len() > 0 {
                let w = string_of(&cur);
                let ghost old_words = words.deep_view();
                let ghost cur_old = cur@;
                words.push(w);
                cur = Vec::new();
                proof {
                    let rest = spec_split_acc(prepared@.skip(i + 1), Seq::empty());
                    assert(words.deep_view() =~= old_words + seq![cur_old]);
                    assert(spec_split_acc(prepared@.skip(i as int), cur_old) == seq![cur_old]
                        + rest);
                    assert((old_words + seq![cur_old]) + rest =~= old_words + (seq![cur_old]
                        + rest));
                    assert(words.deep_view() + spec_split_acc(prepared@.skip(i + 1), cur@)
                        == spec_split_acc(prepared@, Seq::empty()));
                }
            } else {
                proof {
                    assert(cur@ =~= Seq::empty());
                    assert(spec_split_acc(prepared@.skip(i as int), cur@) == spec_split_acc(
                        prepared@.skip(i + 1),
                        cur@,
                    ));
                }
            }
        } else {
            let ghost cur_old = cur@;
            cur.push(c);
            proof {
                assert(spec_split_acc(prepared@.skip(i as int), cur_old) == spec_split_acc(
                    prepared@.skip(i + 1),
                    cur@,
                ));
            }
        }
        proof {
            assert(words.deep_view() + spec_split_acc(prepared@.skip(i + 1), cur@)
                =~= spec_split_acc(prepared@, Seq::empty()));
        }
    }
    proof {
        assert(prepared@.skip(m as int) =~= Seq::<char>::empty());
    }
    if cur.len() > 0 {
        let w = string_of(&cur);
        let ghost old_words = words.deep_view();
        words.push(w);
        proof {
            assert(words.deep_view() =~= old_words.push(w@));
            assert(old_words.push(w@) =~= old_words + seq![w@]);
        }
    }
    proof {
        assert(words.deep_view() =~= spec_split_acc(prepared@, Seq::empty()));
    }

    // Drop the leading label "prerequisite".
    if words.len() > 0 && str_eq(words[0].as_str(), "prerequisite") {
        let mut rest: Vec<String> = Vec::new();
        let k = words.len();
        let mut i: usize = 1;
        while i < k
            invariant
                1 <= i <= k,
                k == words@.len(),
                rest@.len() == i - 1,
                forall|j: int| 0 <= j < i - 1 ==> rest@[j]@ == words@[j + 1]@,
            decreases k - i,
        {
            let w = words[i].clone();
            rest.push(w);
            i = i + 1;
        }
        proof {
            assert(rest.deep_view() =~= spec_words(text@));
        }
        rest
    } else {
        proof {
            assert(words.deep_view() =~= spec_words(text@));
        }
        words
    }
}

// ---------------------------------------------------------------------------
// The tokenizer, stated first as a recursive function over the word sequence.
// The dispatch is keyed on the current word; each step consumes at least one
// word and emits zero or more tokens, and any unrecognized phrasing fails
// loudly rather than being guessed at.
// ---------------------------------------------------------------------------

/// Why a parse failed.
#[derive(Clone, Copy, Debug, PartialEq, Eq, Structural)]
pub enum ParseErrorKind {
    /// A word did not match any expected continuation at the current state.
    UnexpectedToken,
    /// The words ended in the middle of a construct.
    UnexpectedEndOfInput,
    /// A course identifier failed its length or character-class validation.
    MalformedCourseId,
    /// The placeholder course number after "need" was neither 498 nor 698.
    UnknownDeanCode,
}

/// The mathematical value of a failure: its kind, and the offending word
/// where one exists.
pub struct ErrorModel {
    pub kind: ParseErrorKind,
    pub word: Option<Seq<char>>,
}

/// A failure with no offending word: the input ended too soon.
pub open spec fn spec_eoi() -> ErrorModel {
    ErrorModel { kind: ParseErrorKind::UnexpectedEndOfInput, word: None }
}

/// A failure naming the word that did not fit.
pub open spec fn spec_unexpected(w: Seq<char>) -> ErrorModel {
    ErrorModel { kind: ParseErrorKind::UnexpectedToken, word: Some(w) }
}

/// The expansion of "junior or above": a grouped disjunction of Junior and
/// Senior.
pub open spec fn junior_senior_group() -> Seq<TokenModel> {
    seq![
        TokenModel::Logical(LogicalOp::GroupStart),
        TokenModel::Seniority(SeniorityLevel::Exact(Standing::Junior)),
        TokenModel::Logical(LogicalOp::Or),
        TokenModel::Seniority(SeniorityLevel::Exact(Standing::Senior)),
        TokenModel::Logical(LogicalOp::GroupEnd),
    ]
}

/// The expansion of a plain "graduate": a grouped disjunction of Graduate
/// and Doctorate.
pub open spec fn graduate_doctorate_group() -> Seq<TokenModel> {
    seq![
        TokenModel::Logical(LogicalOp::GroupStart),
        TokenModel::Seniority(SeniorityLevel::Exact(Standing::Graduate)),
        TokenModel::Logical(LogicalOp::Or),
        TokenModel::Seniority(SeniorityLevel::Exact(Standing::Doctorate)),
        TokenModel::Logical(LogicalOp::GroupEnd),
    ]
}

/// The position of the first decimal digit of `w`, or `w.len()` if none.
pub open spec fn spec_first_digit(w: Seq<char>) -> int
    decreases w.len(),
{
    if w.len() == 0 {
        0
    } else if spec_is_digit(w[0]) {
        0
    } else {
        1 + spec_first_digit(w.drop_first())
    }
}

/// Validation of an extracted identifier: a malformed one names the part
/// that failed.
pub open spec fn spec_validate_id(letters: Seq<char>, numbers: Seq<char>, consumed: int) -> Result<
    (int, CourseIdModel),
    ErrorModel,
> {
    match spec_make_course_id(letters, numbers) {
        Some(id) => Ok((consumed, id)),
        None => Err(
            ErrorModel {
                kind: ParseErrorKind::MalformedCourseId,
                word: Some(
                    if !crate::token::valid_letters(letters) {
                        letters
                    } else {
                        numbers
                    },
                ),
            },
        ),
    }
}

/// Course-identifier extraction at position `i`: a word that already mixes
/// letters and digits is split at its first digit; otherwise the word is the
/// letters and the next word the digits.
pub open spec fn spec_take_course_id(ws: Seq<Seq<char>>, i: int) -> Result<
    (int, CourseIdModel),
    ErrorModel,
> {
    if i >= ws.len() {
        Err(spec_eoi())
    } else {
        let w = ws[i];
        let fd = spec_first_digit(w);
        if fd < w.len() {
            spec_validate_id(w.take(fd), w.skip(fd), 1)
        } else if i + 1 >= ws.len() {
            Err(spec_eoi())
        } else {
            spec_validate_id(w, ws[i + 1], 2)
        }
    }
}

/// The words that the permission branch keeps consuming after its lead.
pub open spec fn spec_is_perm_filler(w: Seq<char>) -> bool {
    w == "permission"@ || w == "required"@ || w == "of"@
}

/// The first position at or after `j` that is not a permission filler word.
pub open spec fn spec_perm_end(ws: Seq<Seq<char>>, j: int) -> int
    decreases ws.len() - j,
{
    if j < ws.len() && spec_is_perm_filler(ws[j]) {
        spec_perm_end(ws, j + 1)
    } else {
        j
    }
}

pub proof fn lemma_perm_end_bounds(ws: Seq<Seq<char>>, j: int)
    requires
        j <= ws.len(),
    ensures
        j <= spec_perm_end(ws, j) <= ws.len(),
    decreases ws.len() - j,
{
    if j < ws.len() && spec_is_perm_filler(ws[j]) {
        lemma_perm_end_bounds(ws, j + 1);
    }
}

/// The position after an optional "student"/"students" and an optional
/// "only", starting at `j`.
pub open spec fn spec_student_only_end(ws: Seq<Seq<char>>, j: int) -> int {
    let j2 = if j < ws.len() && (ws[j] == "student"@ || ws[j] == "students"@) {
        j + 1
    } else {
        j
    };
    if j2 < ws.len() && ws[j2] == "only"@ {
        j2 + 1
    } else {
        j2
    }
}

/// "at least [a] junior": any other standing after "at least" is an error.
pub open spec fn spec_step_at_least(ws: Seq<Seq<char>>, i: int) -> Result<
    (int, Seq<TokenModel>),
    ErrorModel,
> {
    if i + 1 >= ws.len() {
        Err(spec_eoi())
    } else if ws[i + 1] != "least"@ {
        Err(spec_unexpected(ws[i + 1]))
    } else {
        let j = if i + 2 < ws.len() && ws[i + 2] == "a"@ {
            i + 3
        } else {
            i + 2
        };
        if j >= ws.len() {
            Err(spec_eoi())
        } else if ws[j] == "junior"@ {
            Ok((j + 1 - i, junior_senior_group()))
        } else {
            Err(spec_unexpected(ws[j]))
        }
    }
}

/// "junior", or "junior standing" which means junior or above.
pub open spec fn spec_step_junior(ws: Seq<Seq<char>>, i: int) -> Result<
    (int, Seq<TokenModel>),
    ErrorModel,
> {
    if i + 1 < ws.len() && ws[i + 1] == "standing"@ {
        Ok((2, junior_senior_group()))
    } else {
        Ok((1, seq![TokenModel::Seniority(SeniorityLevel::Exact(Standing::Junior))]))
    }
}

/// "graduate [student(s)] [only]": without "only" it also admits doctoral
/// students.
pub open spec fn spec_step_graduate(ws: Seq<Seq<char>>, i: int) -> Result<
    (int, Seq<TokenModel>),
    ErrorModel,
> {
    let j2 = if i + 1 < ws.len() && (ws[i + 1] == "student"@ || ws[i + 1] == "students"@) {
        i + 2
    } else {
        i + 1
    };
    if j2 < ws.len() && ws[j2] == "only"@ {
        Ok((j2 + 1 - i, seq![TokenModel::Seniority(SeniorityLevel::Exact(Standing::Graduate))]))
    } else {
        Ok((j2 - i, graduate_doctorate_group()))
    }
}

/// "pinnacle [scholar(s)] [only]".
pub open spec fn spec_step_pinnacle(ws: Seq<Seq<char>>, i: int) -> Result<
    (int, Seq<TokenModel>),
    ErrorModel,
> {
    let j2 = if i + 1 < ws.len() && (ws[i + 1] == "scholar"@ || ws[i + 1] == "scholars"@) {
        i + 2
    } else {
        i + 1
    };
    let j3 = if j2 < ws.len() && ws[j2] == "only"@ {
        j2 + 1
    } else {
        j2
    };
    Ok((j3 - i, seq![TokenModel::Special(SpecialModel::Pinnacle(true))]))
}

/// "with cgpa => <value>": a missing "cgpa" or "=>" is an error.
pub open spec fn spec_step_cgpa(ws: Seq<Seq<char>>, i: int) -> Result<
    (int, Seq<TokenModel>),
    ErrorModel,
> {
    if i + 1 >= ws.len() {
        Err(spec_eoi())
    } else if ws[i + 1] != "cgpa"@ {
        Err(spec_unexpected(ws[i + 1]))
    } else if i + 2 >= ws.len() {
        Err(spec_eoi())
    } else if ws[i + 2] != "=>"@ {
        Err(spec_unexpected(ws[i + 2]))
    } else if i + 3 >= ws.len() {
        Err(spec_eoi())
    } else {
        Ok((4, seq![TokenModel::Special(SpecialModel::Cgpa(ws[i + 3]))]))
    }
}

/// The exact literal "no freshmen or sophomores cohort"; any deviation is
/// an error.
pub open spec fn spec_step_cohort(ws: Seq<Seq<char>>, i: int) -> Result<
    (int, Seq<TokenModel>),
    ErrorModel,
> {
    if i + 1 >= ws.len() {
        Err(spec_eoi())
    } else if ws[i + 1] != "freshmen"@ {
        Err(spec_unexpected(ws[i + 1]))
    } else if i + 2 >= ws.len() {
        Err(spec_eoi())
    } else if ws[i + 2] != "or"@ {
        Err(spec_unexpected(ws[i + 2]))
    } else if i + 3 >= ws.len() {
        Err(spec_eoi())
    } else if ws[i + 3] != "sophomores"@ {
        Err(spec_unexpected(ws[i + 3]))
    } else if i + 4 >= ws.len() {
        Err(spec_eoi())
    } else if ws[i + 4] != "cohort"@ {
        Err(spec_unexpected(ws[i + 4]))
    } else {
        Ok((5, junior_senior_group()))
    }
}

/// "coreq" followed by a course identifier.
pub open spec fn spec_step_coreq(ws: Seq<Seq<char>>, i: int) -> Result<
    (int, Seq<TokenModel>),
    ErrorModel,
> {
    match spec_take_course_id(ws, i + 1) {
        Ok((n, id)) => Ok((1 + n, seq![TokenModel::CourseCoreq(id)])),
        Err(e) => Err(e),
    }
}

/// "pre- co-req" followed by a course identifier: the course is required
/// either before or concurrently; anything but "co-req" after "pre-" is an
/// error.
pub open spec fn spec_step_pre_coreq(ws: Seq<Seq<char>>, i: int) -> Result<
    (int, Seq<TokenModel>),
    ErrorModel,
> {
    if i + 1 >= ws.len() {
        Err(spec_eoi())
    } else if ws[i + 1] != "co-req"@ {
        Err(spec_unexpected(ws[i + 1]))
    } else {
        match spec_take_course_id(ws, i + 2) {
            Ok((n, id)) => Ok(
                (
                    2 + n,
                    seq![
                        TokenModel::Logical(LogicalOp::GroupStart),
                        TokenModel::CoursePrereq(id),
                        TokenModel::CourseCoreq(id),
                        TokenModel::Logical(LogicalOp::GroupEnd),
                    ],
                ),
            ),
            Err(e) => Err(e),
        }
    }
}

/// "need" and five more words, the last a dean's placeholder course number:
/// 498 for the undergraduate dean, 698 for the graduate dean.
pub open spec fn spec_step_need(ws: Seq<Seq<char>>, i: int) -> Result<
    (int, Seq<TokenModel>),
    ErrorModel,
> {
    if i + 6 > ws.len() {
        Err(spec_eoi())
    } else if ws[i + 5] == "498"@ {
        Ok((6, seq![TokenModel::Permission(PermissionKind::DeanUndergraduate)]))
    } else if ws[i + 5] == "698"@ {
        Ok((6, seq![TokenModel::Permission(PermissionKind::DeanGraduate)]))
    } else {
        Err(ErrorModel { kind: ParseErrorKind::UnknownDeanCode, word: Some(ws[i + 5]) })
    }
}

/// The default step: a course identifier, a corequisite one if the word
/// "coreq" follows it.
pub open spec fn spec_step_course(ws: Seq<Seq<char>>, i: int) -> Result<
    (int, Seq<TokenModel>),
    ErrorModel,
> {
    match spec_take_course_id(ws, i) {
        Ok((n, id)) => if i + n < ws.len() && ws[i + n] == "coreq"@ {
            Ok((n + 1, seq![TokenModel::CourseCoreq(id)]))
        } else {
            Ok((n, seq![TokenModel::CoursePrereq(id)]))
        },
        Err(e) => Err(e),
    }
}

/// One step of the scan: what the word at position `i` consumes and emits.
pub open spec fn spec_step(ws: Seq<Seq<char>>, i: int) -> Result<
    (int, Seq<TokenModel>),
    ErrorModel,
>
    recommends
        0 <= i < ws.len(),
{
    let w = ws[i];
    if w == "complete"@ {
        Ok((1, Seq::empty()))
    } else if w == "or"@ {
        Ok((1, seq![TokenModel::Logical(LogicalOp::Or)]))
    } else if w == "and"@ {
        Ok((1, seq![TokenModel::Logical(LogicalOp::And)]))
    } else if w == "("@ {
        Ok((1, seq![TokenModel::Logical(LogicalOp::GroupStart)]))
    } else if w == ")"@ {
        Ok((1, seq![TokenModel::Logical(LogicalOp::GroupEnd)]))
    } else if w == "at"@ {
        spec_step_at_least(ws, i)
    } else if w == "freshman"@ || w == "freshmen"@ {
        Ok((1, seq![TokenModel::Seniority(SeniorityLevel::Exact(Standing::Freshman))]))
    } else if w == "junior"@ || w == "juniors"@ {
        spec_step_junior(ws, i)
    } else if w == "senior"@ || w == "seniors"@ {
        Ok(
            (
                spec_student_only_end(ws, i + 1) - i,
                seq![TokenModel::Seniority(SeniorityLevel::Exact(Standing::Senior))],
            ),
        )
    } else if w == "graduate"@ || w == "grad"@ {
        spec_step_graduate(ws, i)
    } else if w == "doctoral"@ || w == "phd"@ {
        Ok(
            (
                spec_student_only_end(ws, i + 1) - i,
                seq![TokenModel::Seniority(SeniorityLevel::Exact(Standing::Doctorate))],
            ),
        )
    } else if w == "pinnacle"@ {
        spec_step_pinnacle(ws, i)
    } else if w == "with"@ {
        spec_step_cgpa(ws, i)
    } else if w == "permission"@ || w == "instructor"@ || w == "instructor's"@ || w
        == "instructors"@ {
        Ok((spec_perm_end(ws, i + 1) - i, seq![TokenModel::Permission(PermissionKind::Instructor)]))
    } else if w == "no"@ {
        spec_step_cohort(ws, i)
    } else if w == "coreq"@ {
        spec_step_coreq(ws, i)
    } else if w == "pre-"@ {
        spec_step_pre_coreq(ws, i)
    } else if w == "need"@ {
        spec_step_need(ws, i)
    } else {
        spec_step_course(ws, i)
    }
}

/// Every successful step consumes at least one word and stays in bounds.
pub proof fn lemma_step_bounds(ws: Seq<Seq<char>>, i: int)
    requires
        0 <= i < ws.len(),
    ensures
        match spec_step(ws, i) {
            Ok((n, emitted)) => 1 <= n && i + n <= ws.len(),
            Err(_) => true,
        },
{
    lemma_perm_end_bounds(ws, i + 1);
}

/// The tokens of the words from position `i` on: steps applied until the
/// words are exhausted, the emitted tokens concatenated in order; the first
/// failing step fails the whole scan.
pub open spec fn spec_tokens_from(ws: Seq<Seq<char>>, i: int) -> Result<Seq<TokenModel>, ErrorModel>
    decreases ws.len() - i,
        when 0 <= i
    via spec_tokens_from_decreases
{
    if i >= ws.len() {
        Ok(Seq::empty())
    } else {
        match spec_step(ws, i) {
            Ok((n, emitted)) => match spec_tokens_from(ws, i + n) {
                Ok(rest) => Ok(emitted + rest),
                Err(e) => Err(e),
            },
            Err(e) => Err(e),
        }
    }
}

#[via_fn]
proof fn spec_tokens_from_decreases(ws: Seq<Seq<char>>, i: int) {
    if 0 <= i < ws.len() {
        lemma_step_bounds(ws, i);
    }
}

/// The tokens of a whole word sequence.
pub open spec fn spec_tokenize(ws: Seq<Seq<char>>) -> Result<Seq<TokenModel>, ErrorModel> {
    spec_tokens_from(ws, 0)
}

/// The tokens of a raw prerequisite sentence: normalization, then the scan.
pub open spec fn spec_parse_text(text: Seq<char>) -> Result<Seq<TokenModel>, ErrorModel> {
    spec_tokenize(spec_words(text))
}

// ---------------------------------------------------------------------------
// The executable tokenizer, verified against the functions above.
// ---------------------------------------------------------------------------

/// A failure of the tokenizer, before the owning course's context is
/// attached.
#[derive(Debug, PartialEq)]
pub struct TokenizeError {
    pub kind: ParseErrorKind,
    pub word: Option<String>,
}

impl View for TokenizeError {
    type V = ErrorModel;

    open spec fn view(&self) -> ErrorModel {
        ErrorModel { kind: self.kind, word: self.word.deep_view() }
    }
}

impl TokenizeError {
    fn end_of_input() -> (r: TokenizeError)
        ensures
            r@ == spec_eoi(),
    {
        TokenizeError { kind: ParseErrorKind::UnexpectedEndOfInput, word: None }
    }

    fn unexpected(w: &String) -> (r: TokenizeError)
        ensures
            r@ == spec_unexpected(w@),
    {
        TokenizeError { kind: ParseErrorKind::UnexpectedToken, word: Some(w.clone()) }
    }
}

/// If position `k` has only non-digits before it and a digit at it (or is
/// the end), it is the first digit position.
proof fn lemma_first_digit_is(w: Seq<char>, k: int)
    requires
        0 <= k <= w.len(),
        forall|j: int| 0 <= j < k ==> !spec_is_digit(#[trigger] w[j]),
        k < w.len() ==> spec_is_digit(w[k]),
    ensures
        spec_first_digit(w) == k,
    decreases w.len(),
{
    if w.len() > 0 {
        if k == 0 {
            if w.len() > 0 && !spec_is_digit(w[0]) {
                assert(k < w.len());
            }
        } else {
            assert(!spec_is_digit(w[0]));
            assert forall|j: int| 0 <= j < k - 1 implies !spec_is_digit(
                #[trigger] w.drop_first()[j],
            ) by {
                assert(w.drop_first()[j] == w[j + 1]);
            }
            if k - 1 < w.drop_first().len() {
                assert(w.drop_first()[k - 1] == w[k]);
            }
            lemma_first_digit_is(w.drop_first(), k - 1);
        }
    }
}

/// Validates an extracted letters/digits pair and builds the identifier.
fn make_validated(letters: &str, numbers: &str, consumed: usize) -> (r: Result<
    (usize, CourseId),
    TokenizeError,
>)
    ensures
        match r {
            Ok((n, id)) => n == consumed && spec_validate_id(letters@, numbers@, consumed as int)
                == Ok::<(int, CourseIdModel), ErrorModel>((consumed as int, id@)),
            Err(e) => spec_validate_id(letters@, numbers@, consumed as int) == Err::<
                (int, CourseIdModel),
                ErrorModel,
            >(e@),
        },
{
    match CourseId::make(letters, numbers) {
        Some(id) => Ok((consumed, id)),
        None => {
            let word = if !crate::token::is_valid_letters(letters) {
                letters.to_owned()
            } else {
                numbers.to_owned()
            };
            Err(TokenizeError { kind: ParseErrorKind::MalformedCourseId, word: Some(word) })
        },
    }
}

/// Extracts a course identifier at position `i` of the words, as
/// `spec_take_course_id` describes.
fn get_course_id(words: &Vec<String>, i: usize) -> (r: Result<(usize, CourseId), TokenizeError>)
    ensures
        match r {
            Ok((n, id)) => {
                &&& spec_take_course_id(words.deep_view(), i as int) == Ok::<
                    (int, CourseIdModel),
                    ErrorModel,
                >((n as int, id@))
                &&& 1 <= n <= 2
                &&& i + n <= words@.len()
            },
            Err(e) => spec_take_course_id(words.deep_view(), i as int) == Err::<
                (int, CourseIdModel),
                ErrorModel,
            >(e@),
        },
{
    let ghost ws = words.deep_view();
    if i >= words.len() {
        return Err(TokenizeError::end_of_input());
    }
    let s = words[i].as_str();
    proof {
        assert(ws[i as int] == words@[i as int]@);
    }
    let wn = s.unicode_len();
    let mut fd: usize = 0;
    while fd < wn && !is_digit_char(s.get_char(fd))
        invariant
            fd <= wn,
            wn == s@.len(),
            forall|j: int| 0 <= j < fd ==> !spec_is_digit(#[trigger] s@[j]),
        decreases wn - fd,
    {
        fd = fd + 1;
    }
    proof {
        lemma_first_digit_is(s@, fd as int);
    }
    if fd < wn {
        let letters = s.substring_char(0, fd);
        let numbers = s.substring_char(fd, wn);
        proof {
            assert(letters@ =~= ws[i as int].take(fd as int));
            assert(numbers@ =~= ws[i as int].skip(fd as int));
        }
        match make_validated(letters, numbers, 1) {
            Ok((n, id)) => Ok((n, id)),
            Err(e) => Err(e),
        }
    } else {
        if i + 1 >= words.len() {
            return Err(TokenizeError::end_of_input());
        }
        proof {
            assert(ws[i + 1] == words@[i + 1]@);
        }
        let numbers = words[i + 1].as_str();
        match make_validated(s, numbers, 2) {
            Ok((n, id)) => Ok((n, id)),
            Err(e) => Err(e),
        }
    }
}

/// Appends the grouped Junior-or-Senior expansion.
fn push_junior_senior(out: &mut Vec<Token>)
    ensures
        final(out).deep_view() == old(out).deep_view() + junior_senior_group(),
{
    out.push(Token::group_start());
    out.push(Token::exactly(Standing::Junior));
    out.push(Token::or_op());
    out.push(Token::exactly(Standing::Senior));
    out.push(Token::group_end());
    proof {
        assert(out.deep_view() =~= old(out).deep_view() + junior_senior_group());
    }
}

/// Appends the grouped Graduate-or-Doctorate expansion.
fn push_graduate_doctorate(out: &mut Vec<Token>)
    ensures
        final(out).deep_view() == old(out).deep_view() + graduate_doctorate_group(),
{
    out.push(Token::group_start());
    out.push(Token::exactly(Standing::Graduate));
    out.push(Token::or_op());
    out.push(Token::exactly(Standing::Doctorate));
    out.push(Token::group_end());
    proof {
        assert(out.deep_view() =~= old(out).deep_view() + graduate_doctorate_group());
    }
}

/// What the scan invariant carries between steps: the whole scan equals the
/// tokens emitted so far followed by whatever the rest of the words yield.
pub open spec fn scan_state(ws: Seq<Seq<char>>, i: int, done: Seq<TokenModel>) -> bool {
    spec_tokens_from(ws, 0) == match spec_tokens_from(ws, i) {
        Ok(rest) => Ok::<Seq<TokenModel>, ErrorModel>(done + rest),
        Err(e) => Err::<Seq<TokenModel>, ErrorModel>(e),
    }
}

/// A successful step carries the scan state forward.
proof fn lemma_advance(
    ws: Seq<Seq<char>>,
    i: int,
    n: int,
    emitted: Seq<TokenModel>,
    pre: Seq<TokenModel>,
    post: Seq<TokenModel>,
)
    requires
        0 <= i < ws.len(),
        spec_step(ws, i) == Ok::<(int, Seq<TokenModel>), ErrorModel>((n, emitted)),
        post == pre + emitted,
        scan_state(ws, i, pre),
    ensures
        1 <= n,
        i + n <= ws.len(),
        scan_state(ws, i + n, post),
{
    lemma_step_bounds(ws, i);
    match spec_tokens_from(ws, i + n) {
        Ok(rest) => {
            assert(pre + (emitted + rest) =~= (pre + emitted) + rest);
        },
        Err(e) => {},
    }
}

/// A failing step fails the whole scan with its error.
proof fn lemma_fail(ws: Seq<Seq<char>>, i: int, e: ErrorModel, pre: Seq<TokenModel>)
    requires
        0 <= i < ws.len(),
        spec_step(ws, i) == Err::<(int, Seq<TokenModel>), ErrorModel>(e),
        scan_state(ws, i, pre),
    ensures
        spec_tokens_from(ws, 0) == Err::<Seq<TokenModel>, ErrorModel>(e),
{
}
/// One executable step of the scan at position `i`: pushes what the step
/// emits onto `out` and returns the next position, or returns the step's
/// failure and leaves `out` unchanged.
#[verifier::rlimit(100)]
fn step_exec(words: &Vec<String>, i: usize, out: &mut Vec<Token>) -> (r: Result<
    usize,
    TokenizeError,
>)
    requires
        i < words@.len(),
    ensures
        match r {
            Ok(ni) => {
                &&& i < ni <= words@.len()
                &&& match spec_step(words.deep_view(), i as int) {
                    Ok((n, emitted)) => ni == i + n && final(out).deep_view() == old(
                        out,
                    ).deep_view() + emitted,
                    Err(_) => false,
                }
            },
            Err(e) => {
                &&& spec_step(words.deep_view(), i as int) == Err::<
                    (int, Seq<TokenModel>),
                    ErrorModel,
                >(e@)
                &&& final(out).deep_view() == old(out).deep_view()
            },
        },
{
    let ghost ws = words.deep_view();
    let ghost pre = old(out).deep_view();
    let n = words.len();
    proof {
        assert forall|k: int| 0 <= k < ws.len() implies #[trigger] ws[k] == words@[k]@ by {}
        lemma_step_bounds(ws, i as int);
    }
    if str_eq(words[i].as_str(), "complete") {
        proof {
            assert(spec_step(ws, i as int) == Ok::<(int, Seq<TokenModel>), ErrorModel>(
                (1int, Seq::<TokenModel>::empty()),
            ));
            assert(out.deep_view() =~= pre + Seq::<TokenModel>::empty());
        }
        Ok(i + 1)
    } else if str_eq(words[i].as_str(), "or") {
        out.push(Token::or_op());
        proof {
            let emitted = seq![TokenModel::Logical(LogicalOp::Or)];
            assert(spec_step(ws, i as int) == Ok::<(int, Seq<TokenModel>), ErrorModel>(
                (1int, emitted),
            ));
            assert(out.deep_view() =~= pre + emitted);
        }
        Ok(i + 1)
    } else if str_eq(words[i].as_str(), "and") {
        out.push(Token::and_op());
        proof {
            let emitted = seq![TokenModel::Logical(LogicalOp::And)];
            assert(spec_step(ws, i as int) == Ok::<(int, Seq<TokenModel>), ErrorModel>(
                (1int, emitted),
            ));
            assert(out.deep_view() =~= pre + emitted);
        }
        Ok(i + 1)
    } else if str_eq(words[i].as_str(), "(") {
        out.push(Token::group_start());
        proof {
            let emitted = seq![TokenModel::Logical(LogicalOp::GroupStart)];
            assert(spec_step(ws, i as int) == Ok::<(int, Seq<TokenModel>), ErrorModel>(
                (1int, emitted),
            ));
            assert(out.deep_view() =~= pre + emitted);
        }
        Ok(i + 1)
    } else if str_eq(words[i].as_str(), ")") {
        out.push(Token::group_end());
        proof {
            let emitted = seq![TokenModel::Logical(LogicalOp::GroupEnd)];
            assert(spec_step(ws, i as int) == Ok::<(int, Seq<TokenModel>), ErrorModel>(
                (1int, emitted),
            ));
            assert(out.deep_view() =~= pre + emitted);
        }
        Ok(i + 1)
    } else if str_eq(words[i].as_str(), "at") {
        if i + 1 >= n {
            return Err(TokenizeError::end_of_input());
        }
        if !str_eq(words[i + 1].as_str(), "least") {
            return Err(TokenizeError::unexpected(&words[i + 1]));
        }
        let mut j = i + 2;
        if j < n && str_eq(words[j].as_str(), "a") {
            j = j + 1;
        }
        if j >= n {
            return Err(TokenizeError::end_of_input());
        }
        if str_eq(words[j].as_str(), "junior") {
            push_junior_senior(out);
            proof {
                assert(spec_step(ws, i as int) == Ok::<(int, Seq<TokenModel>), ErrorModel>(
                    ((j + 1 - i) as int, junior_senior_group()),
                ));
            }
            Ok(j + 1)
        } else {
            Err(TokenizeError::unexpected(&words[j]))
        }
    } else if str_eq(words[i].as_str(), "freshman") || str_eq(words[i].as_str(), "freshmen") {
        out.push(Token::exactly(Standing::Freshman));
        proof {
            let emitted = seq![TokenModel::Seniority(SeniorityLevel::Exact(Standing::Freshman))];
            assert(spec_step(ws, i as int) == Ok::<(int, Seq<TokenModel>), ErrorModel>(
                (1int, emitted),
            ));
            assert(out.deep_view() =~= pre + emitted);
        }
        Ok(i + 1)
    } else if str_eq(words[i].as_str(), "junior") || str_eq(words[i].as_str(), "juniors") {
        if i + 1 < n && str_eq(words[i + 1].as_str(), "standing") {
            push_junior_senior(out);
            proof {
                assert(spec_step(ws, i as int) == Ok::<(int, Seq<TokenModel>), ErrorModel>(
                    (2int, junior_senior_group()),
                ));
            }
            Ok(i + 2)
        } else {
            out.push(Token::exactly(Standing::Junior));
            proof {
                let emitted = seq![TokenModel::Seniority(SeniorityLevel::Exact(Standing::Junior))];
                assert(spec_step(ws, i as int) == Ok::<(int, Seq<TokenModel>), ErrorModel>(
                    (1int, emitted),
                ));
                assert(out.deep_view() =~= pre + emitted);
            }
            Ok(i + 1)
        }
    } else if str_eq(words[i].as_str(), "senior") || str_eq(words[i].as_str(), "seniors") {
        let mut j = i + 1;
        if j < n && (str_eq(words[j].as_str(), "student") || str_eq(
            words[j].as_str(),
            "students",
        )) {
            j = j + 1;
        }
        if j < n && str_eq(words[j].as_str(), "only") {
            j = j + 1;
        }
        out.push(Token::exactly(Standing::Senior));
        proof {
            let emitted = seq![TokenModel::Seniority(SeniorityLevel::Exact(Standing::Senior))];
            assert(spec_student_only_end(ws, i + 1) == j);
            assert(spec_step(ws, i as int) == Ok::<(int, Seq<TokenModel>), ErrorModel>(
                ((j - i) as int, emitted),
            ));
            assert(out.deep_view() =~= pre + emitted);
        }
        Ok(j)
    } else if str_eq(words[i].as_str(), "graduate") || str_eq(words[i].as_str(), "grad") {
        let mut j = i + 1;
        if j < n && (str_eq(words[j].as_str(), "student") || str_eq(
            words[j].as_str(),
            "students",
        )) {
            j = j + 1;
        }
        if j < n && str_eq(words[j].as_str(), "only") {
            out.push(Token::exactly(Standing::Graduate));
            proof {
                let emitted = seq![
                    TokenModel::Seniority(SeniorityLevel::Exact(Standing::Graduate)),
                ];
                assert(spec_step(ws, i as int) == Ok::<(int, Seq<TokenModel>), ErrorModel>(
                    ((j + 1 - i) as int, emitted),
                ));
                assert(out.deep_view() =~= pre + emitted);
            }
            Ok(j + 1)
        } else {
            push_graduate_doctorate(out);
            proof {
                assert(spec_step(ws, i as int) == Ok::<(int, Seq<TokenModel>), ErrorModel>(
                    ((j - i) as int, graduate_doctorate_group()),
                ));
            }
            Ok(j)
        }
    } else if str_eq(words[i].as_str(), "doctoral") || str_eq(words[i].as_str(), "phd") {
        let mut j = i + 1;
        if j < n && (str_eq(words[j].as_str(), "student") || str_eq(
            words[j].as_str(),
            "students",
        )) {
            j = j + 1;
        }
        if j < n && str_eq(words[j].as_str(), "only") {
            j = j + 1;
        }
        out.push(Token::exactly(Standing::Doctorate));
        proof {
            let emitted = seq![TokenModel::Seniority(SeniorityLevel::Exact(Standing::Doctorate))];
            assert(spec_student_only_end(ws, i + 1) == j);
            assert(spec_step(ws, i as int) == Ok::<(int, Seq<TokenModel>), ErrorModel>(
                ((j - i) as int, emitted),
            ));
            assert(out.deep_view() =~= pre + emitted);
        }
        Ok(j)
    } else if str_eq(words[i].as_str(), "pinnacle") {
        let mut j = i + 1;
        if j < n && (str_eq(words[j].as_str(), "scholar") || str_eq(
            words[j].as_str(),
            "scholars",
        )) {
            j = j + 1;
        }
        if j < n && str_eq(words[j].as_str(), "only") {
            j = j + 1;
        }
        out.push(Token::Special(SpecialKind::Pinnacle(true)));
        proof {
            let emitted = seq![TokenModel::Special(SpecialModel::Pinnacle(true))];
            assert(spec_step(ws, i as int) == Ok::<(int, Seq<TokenModel>), ErrorModel>(
                ((j - i) as int, emitted),
            ));
            assert(out.deep_view() =~= pre + emitted);
        }
        Ok(j)
    } else if str_eq(words[i].as_str(), "with") {
        if i + 1 >= n {
            return Err(TokenizeError::end_of_input());
        }
        if !str_eq(words[i + 1].as_str(), "cgpa") {
            return Err(TokenizeError::unexpected(&words[i + 1]));
        }
        if i + 2 >= n {
            return Err(TokenizeError::end_of_input());
        }
        if !str_eq(words[i + 2].as_str(), "=>") {
            return Err(TokenizeError::unexpected(&words[i + 2]));
        }
        if i + 3 >= n {
            return Err(TokenizeError::end_of_input());
        }
        out.push(Token::Special(SpecialKind::Cgpa(words[i + 3].clone())));
        proof {
            let emitted = seq![TokenModel::Special(SpecialModel::Cgpa(ws[i + 3]))];
            assert(spec_step(ws, i as int) == Ok::<(int, Seq<TokenModel>), ErrorModel>(
                (4int, emitted),
            ));
            assert(out.deep_view() =~= pre + emitted);
        }
        Ok(i + 4)
    } else if str_eq(words[i].as_str(), "permission") || str_eq(words[i].as_str(), "instructor")
        || str_eq(words[i].as_str(), "instructor's") || str_eq(words[i].as_str(), "instructors") {
        let mut j = i + 1;
        while j < n && (str_eq(words[j].as_str(), "permission") || str_eq(
            words[j].as_str(),
            "required",
        ) || str_eq(words[j].as_str(), "of"))
            invariant
                i + 1 <= j <= n,
                n == words@.len(),
                ws == words.deep_view(),
                forall|k: int| 0 <= k < ws.len() ==> #[trigger] ws[k] == words@[k]@,
                spec_perm_end(ws, i + 1) == spec_perm_end(ws, j as int),
            decreases n - j,
        {
            j = j + 1;
        }
        out.push(Token::Permission(PermissionKind::Instructor));
        proof {
            let emitted = seq![TokenModel::Permission(PermissionKind::Instructor)];
            assert(spec_perm_end(ws, j as int) == j);
            assert(spec_step(ws, i as int) == Ok::<(int, Seq<TokenModel>), ErrorModel>(
                ((j - i) as int, emitted),
            ));
            assert(out.deep_view() =~= pre + emitted);
        }
        Ok(j)
    } else if str_eq(words[i].as_str(), "no") {
        if i + 1 >= n {
            return Err(TokenizeError::end_of_input());
        }
        if !str_eq(words[i + 1].as_str(), "freshmen") {
            return Err(TokenizeError::unexpected(&words[i + 1]));
        }
        if i + 2 >= n {
            return Err(TokenizeError::end_of_input());
        }
        if !str_eq(words[i + 2].as_str(), "or") {
            return Err(TokenizeError::unexpected(&words[i + 2]));
        }
        if i + 3 >= n {
            return Err(TokenizeError::end_of_input());
        }
        if !str_eq(words[i + 3].as_str(), "sophomores") {
            return Err(TokenizeError::unexpected(&words[i + 3]));
        }
        if i + 4 >= n {
            return Err(TokenizeError::end_of_input());
        }
        if !str_eq(words[i + 4].as_str(), "cohort") {
            return Err(TokenizeError::unexpected(&words[i + 4]));
        }
        push_junior_senior(out);
        proof {
            assert(spec_step(ws, i as int) == Ok::<(int, Seq<TokenModel>), ErrorModel>(
                (5int, junior_senior_group()),
            ));
        }
        Ok(i + 5)
    } else if str_eq(words[i].as_str(), "coreq") {
        match get_course_id(words, i + 1) {
            Ok((cn, id)) => {
                let ghost idv = id@;
                out.push(Token::CourseCoreq(id));
                proof {
                    let emitted = seq![TokenModel::CourseCoreq(idv)];
                    assert(spec_step(ws, i as int) == Ok::<(int, Seq<TokenModel>), ErrorModel>(
                        ((1 + cn) as int, emitted),
                    ));
                    assert(out.deep_view() =~= pre + emitted);
                }
                Ok(i + 1 + cn)
            },
            Err(e) => Err(e),
        }
    } else if str_eq(words[i].as_str(), "pre-") {
        if i + 1 >= n {
            return Err(TokenizeError::end_of_input());
        }
        if !str_eq(words[i + 1].as_str(), "co-req") {
            return Err(TokenizeError::unexpected(&words[i + 1]));
        }
        match get_course_id(words, i + 2) {
            Ok((cn, id)) => {
                let ghost idv = id@;
                let id2 = id.duplicate();
                out.push(Token::group_start());
                out.push(Token::CoursePrereq(id));
                out.push(Token::CourseCoreq(id2));
                out.push(Token::group_end());
                proof {
                    let emitted = seq![
                        TokenModel::Logical(LogicalOp::GroupStart),
                        TokenModel::CoursePrereq(idv),
                        TokenModel::CourseCoreq(idv),
                        TokenModel::Logical(LogicalOp::GroupEnd),
                    ];
                    assert(spec_step(ws, i as int) == Ok::<(int, Seq<TokenModel>), ErrorModel>(
                        ((2 + cn) as int, emitted),
                    ));
                    assert(out.deep_view() =~= pre + emitted);
                }
                Ok(i + 2 + cn)
            },
            Err(e) => Err(e),
        }
    } else if str_eq(words[i].as_str(), "need") {
        if n - i < 6 {
            return Err(TokenizeError::end_of_input());
        }
        if str_eq(words[i + 5].as_str(), "498") {
            out.push(Token::Permission(PermissionKind::DeanUndergraduate));
            proof {
                let emitted = seq![TokenModel::Permission(PermissionKind::DeanUndergraduate)];
                assert(spec_step(ws, i as int) == Ok::<(int, Seq<TokenModel>), ErrorModel>(
                    (6int, emitted),
                ));
                assert(out.deep_view() =~= pre + emitted);
            }
            Ok(i + 6)
        } else if str_eq(words[i + 5].as_str(), "698") {
            out.push(Token::Permission(PermissionKind::DeanGraduate));
            proof {
                let emitted = seq![TokenModel::Permission(PermissionKind::DeanGraduate)];
                assert(spec_step(ws, i as int) == Ok::<(int, Seq<TokenModel>), ErrorModel>(
                    (6int, emitted),
                ));
                assert(out.deep_view() =~= pre + emitted);
            }
            Ok(i + 6)
        } else {
            Err(
                TokenizeError {
                    kind: ParseErrorKind::UnknownDeanCode,
                    word: Some(words[i + 5].clone()),
                },
            )
        }
    } else {
        match get_course_id(words, i) {
            Ok((cn, id)) => {
                let ghost idv = id@;
                if i + cn < n && str_eq(words[i + cn].as_str(), "coreq") {
                    out.push(Token::CourseCoreq(id));
                    proof {
                        let emitted = seq![TokenModel::CourseCoreq(idv)];
                        assert(spec_step(ws, i as int) == Ok::<(int, Seq<TokenModel>), ErrorModel>(
                            ((cn + 1) as int, emitted),
                        ));
                        assert(out.deep_view() =~= pre + emitted);
                    }
                    Ok(i + cn + 1)
                } else {
                    out.push(Token::CoursePrereq(id));
                    proof {
                        let emitted = seq![TokenModel::CoursePrereq(idv)];
                        assert(spec_step(ws, i as int) == Ok::<(int, Seq<TokenModel>), ErrorModel>(
                            (cn as int, emitted),
                        ));
                        assert(out.deep_view() =~= pre + emitted);
                    }
                    Ok(i + cn)
                }
            },
            Err(e) => Err(e),
        }
    }
}

/// Scans normalized words left to right and returns their token sequence,
/// or the first failure. The result is exactly what `spec_tokenize` yields
/// on the words' views.
pub fn tokenize(words: &Vec<String>) -> (r: Result<Vec<Token>, TokenizeError>)
    ensures
        match r {
            Ok(tokens) => spec_tokenize(words.deep_view()) == Ok::<Seq<TokenModel>, ErrorModel>(
                tokens.deep_view(),
            ),
            Err(e) => spec_tokenize(words.deep_view()) == Err::<Seq<TokenModel>, ErrorModel>(e@),
        },
{
    let ghost ws = words.deep_view();
    let n = words.len();
    let mut out: Vec<Token> = Vec::new();
    let mut i: usize = 0;
    proof {
        assert(ws.len() == n);
        assert(out.deep_view() =~= Seq::<TokenModel>::empty());
        if let Ok(rest) = spec_tokens_from(ws, 0) {
            assert(out.deep_view() + rest =~= rest);
        }
    }
    while i < n
        invariant
            i <= n,
            n == words@.len(),
            ws == words.deep_view(),
            scan_state(ws, i as int, out.deep_view()),
        decreases n - i,
    {
        let ghost pre = out.deep_view();
        match step_exec(words, i, &mut out) {
            Ok(ni) => {
                proof {
                    match spec_step(ws, i as int) {
                        Ok((sn, emitted)) => {
                            lemma_advance(ws, i as int, sn, emitted, pre, out.deep_view());
                        },
                        Err(_) => {
                            assert(false);
                        },
                    }
                }
                i = ni;
            },
            Err(e) => {
                proof {
                    lemma_fail(ws, i as int, e@, pre);
                }
                return Err(e);
            },
        }
    }
    proof {
        assert(spec_tokens_from(ws, n as int) == Ok::<Seq<TokenModel>, ErrorModel>(Seq::empty()));
        assert(out.deep_view() + Seq::<TokenModel>::empty() =~= out.deep_view());
    }
    Ok(out)
}

// ---------------------------------------------------------------------------
// The public parser: a fixed override table consulted first, then the
// general algorithm, with failures tagged by course and source link.
// ---------------------------------------------------------------------------

/// A parse failure, tagged with the course identifier and source link it
/// belongs to, so failures can be triaged per course without aborting a
/// whole batch.
#[derive(Debug)]
pub struct ParseError {
    pub kind: ParseErrorKind,
    pub word: Option<String>,
    pub course_id: String,
    pub link: String,
}

/// The mathematical value of a `ParseError`.
pub struct ParseErrorModel {
    pub kind: ParseErrorKind,
    pub word: Option<Seq<char>>,
    pub course_id: Seq<char>,
    pub link: Seq<char>,
}

impl View for ParseError {
    type V = ParseErrorModel;

    open spec fn view(&self) -> ParseErrorModel {
        ParseErrorModel {
            kind: self.kind,
            word: self.word.deep_view(),
            course_id: self.course_id@,
            link: self.link@,
        }
    }
}

/// The canonical name of a failure kind.
pub open spec fn spec_kind_name(kind: ParseErrorKind) -> Seq<char> {
    match kind {
        ParseErrorKind::UnexpectedToken => "unexpected token"@,
        ParseErrorKind::UnexpectedEndOfInput => "unexpected end of input"@,
        ParseErrorKind::MalformedCourseId => "malformed course id"@,
        ParseErrorKind::UnknownDeanCode => "unknown dean code"@,
    }
}

/// The human-readable message of a failure.
pub open spec fn spec_error_message(e: ParseErrorModel) -> Seq<char> {
    spec_kind_name(e.kind) + (match e.word {
        Some(w) => " at \""@ + w + "\""@,
        None => Seq::empty(),
    }) + " for course "@ + e.course_id + " ("@ + e.link + ")"@
}

fn kind_name(kind: ParseErrorKind) -> (r: &'static str)
    ensures
        r@ == spec_kind_name(kind),
{
    match kind {
        ParseErrorKind::UnexpectedToken => "unexpected token",
        ParseErrorKind::UnexpectedEndOfInput => "unexpected end of input",
        ParseErrorKind::MalformedCourseId => "malformed course id",
        ParseErrorKind::UnknownDeanCode => "unknown dean code",
    }
}

impl ParseError {
    /// A one-line human-readable account of the failure.
    pub fn message(&self) -> (r: String)
        ensures
            r@ == spec_error_message(self@),
    {
        let mut out = String::from_str(kind_name(self.kind));
        match &self.word {
            Some(w) => {
                out.append(" at \"");
                out.append(w.as_str());
                out.append("\"");
            },
            None => {},
        }
        out.append(" for course ");
        out.append(self.course_id.as_str());
        out.append(" (");
        out.append(self.link.as_str());
        out.append(")");
        out
    }
}

/// The table of hand-authored token sequences for course identifiers whose
/// catalog prose the general algorithm cannot parse. A later entry for the
/// same identifier replaces the earlier one.
pub struct Overrides {
    entries: Vec<(String, Vec<Token>)>,
}

/// The map of an entry sequence: entries inserted left to right, so a later
/// entry wins.
pub open spec fn spec_entries_map(es: Seq<(Seq<char>, Seq<TokenModel>)>) -> Map<
    Seq<char>,
    Seq<TokenModel>,
>
    decreases es.len(),
{
    if es.len() == 0 {
        Map::empty()
    } else {
        spec_entries_map(es.drop_last()).insert(es.last().0, es.last().1)
    }
}

impl View for Overrides {
    type V = Map<Seq<char>, Seq<TokenModel>>;

    closed spec fn view(&self) -> Map<Seq<char>, Seq<TokenModel>> {
        spec_entries_map(self.entries.deep_view())
    }
}

impl Overrides {
    /// An empty table.
    pub fn new() -> (r: Overrides)
        ensures
            r@ == Map::<Seq<char>, Seq<TokenModel>>::empty(),
    {
        let r = Overrides { entries: Vec::new() };
        proof {
            assert(r.entries.deep_view() =~= Seq::<(Seq<char>, Seq<TokenModel>)>::empty());
        }
        r
    }

    /// Sets the fixed token sequence for one course identifier.
    pub fn set(&mut self, course_id: String, tokens: Vec<Token>)
        ensures
            final(self)@ == old(self)@.insert(course_id@, tokens.deep_view()),
    {
        let ghost old_entries = self.entries.deep_view();
        let ghost entry_view = (course_id@, tokens.deep_view());
        self.entries.push((course_id, tokens));
        proof {
            assert(self.entries.deep_view() =~= old_entries.push(entry_view));
            assert(self.entries.deep_view().drop_last() =~= old_entries);
        }
    }

    /// The fixed token sequence for a course identifier, if the table has
    /// one.
    pub fn get(&self, course_id: &str) -> (r: Option<&Vec<Token>>)
        ensures
            match r {
                Some(tokens) => self@.contains_key(course_id@) && self@[course_id@]
                    == tokens.deep_view(),
                None => !self@.contains_key(course_id@),
            },
    {
        let ghost es = self.entries.deep_view();
        let mut j = self.entries.len();
        proof {
            assert(es.take(j as int) =~= es);
        }
        while j > 0
            invariant
                j <= self.entries@.len(),
                es == self.entries.deep_view(),
                self@.contains_key(course_id@) == spec_entries_map(es.take(j as int)).contains_key(
                    course_id@,
                ),
                spec_entries_map(es.take(j as int)).contains_key(course_id@) ==> self@[course_id@]
                    == spec_entries_map(es.take(j as int))[course_id@],
            decreases j,
        {
            j = j - 1;
            proof {
                assert(es.take(j + 1).drop_last() =~= es.take(j as int));
                assert(es.take(j + 1).last() == es[j as int]);
                let entry = self.entries@[j as int];
                assert(es[j as int] == (entry.0@, entry.1.deep_view()));
            }
            if str_eq(self.entries[j].0.as_str(), course_id) {
                return Some(&self.entries[j].1);
            }
        }
        proof {
            assert(es.take(0) =~= Seq::<(Seq<char>, Seq<TokenModel>)>::empty());
        }
        None
    }
}

/// Parses the raw prerequisite text of one course. A course identifier
/// present in the override table always yields its fixed sequence, whatever
/// its scraped text says; otherwise the text is normalized and scanned, and
/// a failure is tagged with the course identifier and link.
pub fn parse_prerequisites(
    overrides: &Overrides,
    course_id: &str,
    link: &str,
    text: &str,
) -> (r: Result<Vec<Token>, ParseError>)
    ensures
        overrides@.contains_key(course_id@) ==> r is Ok,
        match r {
            Ok(tokens) => if overrides@.contains_key(course_id@) {
                tokens.deep_view() == overrides@[course_id@]
            } else {
                spec_parse_text(text@) == Ok::<Seq<TokenModel>, ErrorModel>(tokens.deep_view())
            },
            Err(e) => {
                &&& !overrides@.contains_key(course_id@)
                &&& spec_parse_text(text@) == Err::<Seq<TokenModel>, ErrorModel>(
                    ErrorModel { kind: e@.kind, word: e@.word },
                )
                &&& e@.course_id == course_id@
                &&& e@.link == link@
            },
        },
{
    match overrides.get(course_id) {
        Some(tokens) => Ok(duplicate_tokens(tokens)),
        None => {
            let words = normalize(text);
            match tokenize(&words) {
                Ok(tokens) => Ok(tokens),
                Err(e) => Err(
                    ParseError {
                        kind: e.kind,
                        word: e.word,
                        course_id: course_id.to_owned(),
                        link: link.to_owned(),
                    },
                ),
            }
        },
    }
}

/// Parses a raw prerequisite sentence with no overrides and no course
/// context: normalization, then the scan.
pub fn parse_text(text: &str) -> (r: Result<Vec<Token>, TokenizeError>)
    ensures
        match r {
            Ok(tokens) => spec_parse_text(text@) == Ok::<Seq<TokenModel>, ErrorModel>(
                tokens.deep_view(),
            ),
            Err(e) => spec_parse_text(text@) == Err::<Seq<TokenModel>, ErrorModel>(e@),
        },
{
    let words = normalize(text);
    tokenize(&words)
}

/// The intended simplification pass over token sequences: collapsing
/// redundant groups and folding runs of exact standings into minimums is
/// described but has no rules yet, so the sequence is returned unchanged.
pub fn simplified(tokens: Vec<Token>) -> (r: Vec<Token>)
    ensures
        r.deep_view() == tokens.deep_view(),
{
    tokens
}

// ---------------------------------------------------------------------------
// Law: a sentence consisting solely of course identifiers joined by "and"
// tokenizes to exactly those course prerequisites, in order, alternating
// with And.
// ---------------------------------------------------------------------------

/// The words on which the scan dispatches before falling through to the
/// course-identifier default.
pub open spec fn spec_is_lead_word(w: Seq<char>) -> bool {
    ||| w == "complete"@
    ||| w == "or"@
    ||| w == "and"@
    ||| w == "("@
    ||| w == ")"@
    ||| w == "at"@
    ||| w == "freshman"@
    ||| w == "freshmen"@
    ||| w == "junior"@
    ||| w == "juniors"@
    ||| w == "senior"@
    ||| w == "seniors"@
    ||| w == "graduate"@
    ||| w == "grad"@
    ||| w == "doctoral"@
    ||| w == "phd"@
    ||| w == "pinnacle"@
    ||| w == "with"@
    ||| w == "permission"@
    ||| w == "instructor"@
    ||| w == "instructor's"@
    ||| w == "instructors"@
    ||| w == "no"@
    ||| w == "coreq"@
    ||| w == "pre-"@
    ||| w == "need"@
}

/// From position `i` on, the words are course identifiers (a letters word
/// that is no lead word, then a digits word) joined by the word "and".
pub open spec fn spec_course_and_chain_from(ws: Seq<Seq<char>>, i: int) -> bool
    decreases ws.len() - i,
        when 0 <= i
{
    &&& i + 2 <= ws.len()
    &&& valid_letters(ws[i])
    &&& !spec_is_lead_word(ws[i])
    &&& valid_numbers(ws[i + 1])
    &&& (i + 2 == ws.len() || (ws[i + 2] == "and"@ && spec_course_and_chain_from(ws, i + 3)))
}

/// A whole word sequence of that shape.
pub open spec fn spec_course_and_chain(ws: Seq<Seq<char>>) -> bool {
    spec_course_and_chain_from(ws, 0)
}

/// The identifier such a pair of words yields: uppercased letters, digits
/// kept.
pub open spec fn spec_chain_id(letters: Seq<char>, numbers: Seq<char>) -> CourseIdModel {
    CourseIdModel {
        letters: letters.map_values(|c: char| crate::text::spec_upper(c)),
        numbers: numbers,
    }
}

/// The tokens such a chain yields: its course prerequisites in order,
/// alternating with And.
pub open spec fn spec_chain_tokens_from(ws: Seq<Seq<char>>, i: int) -> Seq<TokenModel>
    decreases ws.len() - i,
        when 0 <= i
{
    let course = TokenModel::CoursePrereq(spec_chain_id(ws[i], ws[i + 1]));
    if i + 2 >= ws.len() {
        seq![course]
    } else {
        seq![course, TokenModel::Logical(LogicalOp::And)] + spec_chain_tokens_from(ws, i + 3)
    }
}

proof fn lemma_chain_from(ws: Seq<Seq<char>>, i: int)
    requires
        0 <= i,
        spec_course_and_chain_from(ws, i),
    ensures
        spec_tokens_from(ws, i) == Ok::<Seq<TokenModel>, ErrorModel>(
            spec_chain_tokens_from(ws, i),
        ),
    decreases ws.len() - i,
{
    reveal_strlit("and");
    reveal_strlit("coreq");
    reveal_strlit("complete");
    reveal_strlit("or");
    let w = ws[i];
    assert forall|j: int| 0 <= j < w.len() implies !spec_is_digit(#[trigger] w[j]) by {
        assert(crate::text::spec_is_alpha(w[j]));
    }
    lemma_first_digit_is(w, w.len() as int);
    let idm = spec_chain_id(ws[i], ws[i + 1]);
    match spec_make_course_id(ws[i], ws[i + 1]) {
        Some(m) => {
            assert(m.letters =~= idm.letters);
        },
        None => {
            assert(false);
        },
    }
    assert(spec_take_course_id(ws, i) == Ok::<(int, CourseIdModel), ErrorModel>((2int, idm)));
    let course = TokenModel::CoursePrereq(idm);
    if i + 2 == ws.len() {
        assert(spec_step(ws, i) == Ok::<(int, Seq<TokenModel>), ErrorModel>((2int, seq![course])));
        assert(spec_tokens_from(ws, i + 2) == Ok::<Seq<TokenModel>, ErrorModel>(Seq::empty()));
        assert(seq![course] + Seq::<TokenModel>::empty() =~= spec_chain_tokens_from(ws, i));
    } else {
        assert(ws[i + 2] == "and"@);
        assert(ws[i + 2] != "coreq"@);
        assert(spec_step(ws, i) == Ok::<(int, Seq<TokenModel>), ErrorModel>((2int, seq![course])));
        assert(spec_step(ws, i + 2) == Ok::<(int, Seq<TokenModel>), ErrorModel>(
            (1int, seq![TokenModel::Logical(LogicalOp::And)]),
        ));
        lemma_chain_from(ws, i + 3);
        let tail = spec_chain_tokens_from(ws, i + 3);
        assert(spec_tokens_from(ws, i + 2) == Ok::<Seq<TokenModel>, ErrorModel>(
            seq![TokenModel::Logical(LogicalOp::And)] + tail,
        ));
        assert(seq![course] + (seq![TokenModel::Logical(LogicalOp::And)] + tail)
            =~= spec_chain_tokens_from(ws, i));
    }
}

/// Law: for every word sequence consisting solely of course identifiers
/// joined by "and", the scan succeeds and yields exactly the corresponding
/// course prerequisites, identifiers preserved in order, alternating with
/// And.
pub proof fn lemma_course_and_chain(ws: Seq<Seq<char>>)
    requires
        spec_course_and_chain(ws),
    ensures
        spec_tokenize(ws) == Ok::<Seq<TokenModel>, ErrorModel>(spec_chain_tokens_from(ws, 0)),
{
    lemma_chain_from(ws, 0);
}

/// The same law at the level of raw text: a sentence that normalizes to
/// such a chain parses to exactly those tokens.
pub proof fn lemma_course_and_chain_text(text: Seq<char>)
    requires
        spec_course_and_chain(spec_words(text)),
    ensures
        spec_parse_text(text) == Ok::<Seq<TokenModel>, ErrorModel>(
            spec_chain_tokens_from(spec_words(text), 0),
        ),
{
    lemma_course_and_chain(spec_words(text));
}

} // verus!
