//! The structured output of the prerequisite tokenizer: course references,
//! logical connectives, class-standing predicates, permissions and a few
//! special predicates, together with their canonical one-line renderings.

use vstd::prelude::*;

use crate::text::{push_char, spec_is_alpha, spec_is_digit, spec_is_upper, spec_upper, upper_char};

verus! {

/// A class standing, ordered from Certificate up to Doctorate.
#[derive(Clone, Copy, Debug, PartialEq, Eq, Structural)]
pub enum Standing {
    Certificate,
    Freshman,
    Sophomore,
    Junior,
    Senior,
    Graduate,
    Doctorate,
}

/// A class-standing predicate: exactly one standing, or that standing and up.
#[derive(Clone, Copy, Debug, PartialEq, Eq, Structural)]
pub enum SeniorityLevel {
    Exact(Standing),
    Minimum(Standing),
}

/// A logical connective of the prerequisite expression. Grouping markers are
/// explicit; no precedence is implied between `And` and `Or`.
#[derive(Clone, Copy, Debug, PartialEq, Eq, Structural)]
pub enum LogicalOp {
    Or,
    And,
    GroupStart,
    GroupEnd,
    Equivalence,
}

/// A permission requirement.
#[derive(Clone, Copy, Debug, PartialEq, Eq, Structural)]
pub enum PermissionKind {
    Instructor,
    DeanUndergraduate,
    DeanGraduate,
}

/// A normalized course identifier: 2 to 4 uppercase ASCII letters and
/// 1 to 3 decimal digits, rendered as `"LETTERS NUMBERS"`.
#[derive(Debug, PartialEq)]
pub struct CourseId {
    letters: String,
    numbers: String,
}

/// The mathematical value of a `CourseId`: its two character sequences.
pub struct CourseIdModel {
    pub letters: Seq<char>,
    pub numbers: Seq<char>,
}

/// A special-case predicate: a major restriction, membership in the
/// pinnacle program, or a minimum cumulative GPA.
#[derive(Debug, PartialEq)]
pub enum SpecialKind {
    Major(String),
    Pinnacle(bool),
    Cgpa(String),
}

/// The mathematical value of a `SpecialKind`.
pub enum SpecialModel {
    Major(Seq<char>),
    Pinnacle(bool),
    Cgpa(Seq<char>),
}

/// One token of a prerequisite expression.
#[derive(Debug, PartialEq)]
pub enum Token {
    CoursePrereq(CourseId),
    CourseCoreq(CourseId),
    Logical(LogicalOp),
    Seniority(SeniorityLevel),
    Permission(PermissionKind),
    Special(SpecialKind),
}

/// The mathematical value of a `Token`.
pub enum TokenModel {
    CoursePrereq(CourseIdModel),
    CourseCoreq(CourseIdModel),
    Logical(LogicalOp),
    Seniority(SeniorityLevel),
    Permission(PermissionKind),
    Special(SpecialModel),
}

/// 2 to 4 ASCII letters of either case.
pub open spec fn valid_letters(s: Seq<char>) -> bool {
    &&& 2 <= s.len() <= 4
    &&& forall|i: int| 0 <= i < s.len() ==> spec_is_alpha(#[trigger] s[i])
}

/// 1 to 3 ASCII decimal digits.
pub open spec fn valid_numbers(s: Seq<char>) -> bool {
    &&& 1 <= s.len() <= 3
    &&& forall|i: int| 0 <= i < s.len() ==> spec_is_digit(#[trigger] s[i])
}

/// Decides `valid_letters` on a string.
pub fn is_valid_letters(s: &str) -> (r: bool)
    ensures
        r == valid_letters(s@),
{
    let n = s.unicode_len();
    if n < 2 || n > 4 {
        return false;
    }
    for i in 0..n
        invariant
            n == s@.len(),
            forall|j: int| 0 <= j < i ==> spec_is_alpha(#[trigger] s@[j]),
    {
        if !crate::text::is_alpha_char(s.get_char(i)) {
            return false;
        }
    }
    true
}

/// Decides `valid_numbers` on a string.
pub fn is_valid_numbers(s: &str) -> (r: bool)
    ensures
        r == valid_numbers(s@),
{
    let n = s.unicode_len();
    if n < 1 || n > 3 {
        return false;
    }
    for i in 0..n
        invariant
            n == s@.len(),
            forall|j: int| 0 <= j < i ==> spec_is_digit(#[trigger] s@[j]),
    {
        if !crate::text::is_digit_char(s.get_char(i)) {
            return false;
        }
    }
    true
}

/// The invariant of a course identifier: valid letters, all uppercase,
/// and valid digits.
pub open spec fn course_id_wf(id: CourseIdModel) -> bool {
    &&& valid_letters(id.letters)
    &&& forall|i: int| 0 <= i < id.letters.len() ==> spec_is_upper(#[trigger] id.letters[i])
    &&& valid_numbers(id.numbers)
}

/// What `CourseId::make` returns: `None` unless the letters and numbers are
/// valid, and otherwise the identifier with its letters uppercased.
pub open spec fn spec_make_course_id(letters: Seq<char>, numbers: Seq<char>) -> Option<
    CourseIdModel,
> {
    if valid_letters(letters) && valid_numbers(numbers) {
        Some(
            CourseIdModel {
                letters: letters.map_values(|c: char| spec_upper(c)),
                numbers: numbers,
            },
        )
    } else {
        None
    }
}

impl View for CourseId {
    type V = CourseIdModel;

    closed spec fn view(&self) -> CourseIdModel {
        CourseIdModel { letters: self.letters@, numbers: self.numbers@ }
    }
}

impl DeepView for CourseId {
    type V = CourseIdModel;

    open spec fn deep_view(&self) -> CourseIdModel {
        self.view()
    }
}

impl CourseId {
    #[verifier::type_invariant]
    pub closed spec fn inv(self) -> bool {
        course_id_wf(self@)
    }

    /// Builds an identifier from a letters part and a digits part, upper-
    /// casing the letters; rejects parts that break the identifier's shape.
    pub fn make(letters: &str, numbers: &str) -> (r: Option<CourseId>)
        ensures
            match r {
                Some(id) => spec_make_course_id(letters@, numbers@) == Some(id@),
                None => spec_make_course_id(letters@, numbers@) is None,
            },
    {
        let letters_len = letters.unicode_len();
        let numbers_len = numbers.unicode_len();
        if letters_len < 2 || letters_len > 4 || numbers_len < 1 || numbers_len > 3 {
            return None;
        }
        let mut upper = String::new();
        for i in 0..letters_len
            invariant
                letters_len == letters@.len(),
                upper@ == letters@.take(i as int).map_values(|c: char| spec_upper(c)),
                forall|j: int| 0 <= j < i ==> spec_is_alpha(#[trigger] letters@[j]),
        {
            let c = letters.get_char(i);
            if !crate::text::is_alpha_char(c) {
                return None;
            }
            push_char(&mut upper, upper_char(c));
            proof {
                assert(upper@ =~= letters@.take(i + 1).map_values(|c: char| spec_upper(c)));
            }
        }
        for i in 0..numbers_len
            invariant
                numbers_len == numbers@.len(),
                forall|j: int| 0 <= j < i ==> spec_is_digit(#[trigger] numbers@[j]),
        {
            if !crate::text::is_digit_char(numbers.get_char(i)) {
                return None;
            }
        }
        proof {
            assert(letters@.take(letters_len as int) =~= letters@);
        }
        let id = CourseId { letters: upper, numbers: numbers.to_owned() };
        Some(id)
    }

    /// The uppercase letters part.
    pub fn letters(&self) -> (r: &String)
        ensures
            r@ == self@.letters,
    {
        &self.letters
    }

    /// The digits part.
    pub fn numbers(&self) -> (r: &String)
        ensures
            r@ == self@.numbers,
    {
        &self.numbers
    }

    /// The serialized form, `"LETTERS NUMBERS"`.
    pub fn id_string(&self) -> (r: String)
        ensures
            r@ == spec_id_string(self@),
    {
        let mut out = self.letters.clone();
        push_char(&mut out, ' ');
        out.append(self.numbers.as_str());
        out
    }

    /// An identical copy, stated so because derived clones carry no contract.
    pub fn duplicate(&self) -> (r: CourseId)
        ensures
            r@ == self@,
    {
        proof {
            use_type_invariant(self);
        }
        CourseId { letters: self.letters.clone(), numbers: self.numbers.clone() }
    }
}

/// The serialized form of a course identifier.
pub open spec fn spec_id_string(id: CourseIdModel) -> Seq<char> {
    id.letters + seq![' '] + id.numbers
}

impl View for SpecialKind {
    type V = SpecialModel;

    open spec fn view(&self) -> SpecialModel {
        match self {
            SpecialKind::Major(m) => SpecialModel::Major(m@),
            SpecialKind::Pinnacle(b) => SpecialModel::Pinnacle(*b),
            SpecialKind::Cgpa(v) => SpecialModel::Cgpa(v@),
        }
    }
}

impl DeepView for SpecialKind {
    type V = SpecialModel;

    open spec fn deep_view(&self) -> SpecialModel {
        self.view()
    }
}

impl View for Token {
    type V = TokenModel;

    open spec fn view(&self) -> TokenModel {
        match self {
            Token::CoursePrereq(id) => TokenModel::CoursePrereq(id@),
            Token::CourseCoreq(id) => TokenModel::CourseCoreq(id@),
            Token::Logical(op) => TokenModel::Logical(*op),
            Token::Seniority(level) => TokenModel::Seniority(*level),
            Token::Permission(kind) => TokenModel::Permission(*kind),
            Token::Special(kind) => TokenModel::Special(kind@),
        }
    }
}

impl DeepView for Token {
    type V = TokenModel;

    open spec fn deep_view(&self) -> TokenModel {
        self.view()
    }
}

impl Token {
    /// An identical copy, stated so because derived clones carry no contract.
    pub fn duplicate(&self) -> (r: Token)
        ensures
            r@ == self@,
    {
        match self {
            Token::CoursePrereq(id) => Token::CoursePrereq(id.duplicate()),
            Token::CourseCoreq(id) => Token::CourseCoreq(id.duplicate()),
            Token::Logical(op) => Token::Logical(*op),
            Token::Seniority(level) => Token::Seniority(*level),
            Token::Permission(kind) => Token::Permission(*kind),
            Token::Special(kind) => match kind {
                SpecialKind::Major(m) => Token::Special(SpecialKind::Major(m.clone())),
                SpecialKind::Pinnacle(b) => Token::Special(SpecialKind::Pinnacle(*b)),
                SpecialKind::Cgpa(v) => Token::Special(SpecialKind::Cgpa(v.clone())),
            },
        }
    }
}

/// Copies a token sequence, element for element.
pub fn duplicate_tokens(tokens: &Vec<Token>) -> (r: Vec<Token>)
    ensures
        r.deep_view() == tokens.deep_view(),
{
    let mut out: Vec<Token> = Vec::new();
    let n = tokens.len();
    for i in 0..n
        invariant
            n == tokens@.len(),
            out@.len() == i,
            forall|j: int| 0 <= j < i ==> out@[j].deep_view() == tokens@[j].deep_view(),
    {
        out.push(tokens[i].duplicate());
    }
    proof {
        assert(out.deep_view() =~= tokens.deep_view());
    }
    out
}

/// The canonical name of a standing.
pub open spec fn spec_standing_name(s: Standing) -> Seq<char> {
    match s {
        Standing::Certificate => "Certificate"@,
        Standing::Freshman => "Freshman"@,
        Standing::Sophomore => "Sophomore"@,
        Standing::Junior => "Junior"@,
        Standing::Senior => "Senior"@,
        Standing::Graduate => "Graduate"@,
        Standing::Doctorate => "Doctorate"@,
    }
}

/// The canonical one-line rendering of a token.
pub open spec fn spec_render_token(t: TokenModel) -> Seq<char> {
    match t {
        TokenModel::CoursePrereq(id) => spec_id_string(id),
        TokenModel::CourseCoreq(id) => "Corequisite "@ + spec_id_string(id),
        TokenModel::Logical(op) => match op {
            LogicalOp::Or => "or"@,
            LogicalOp::And => "and"@,
            LogicalOp::GroupStart => "("@,
            LogicalOp::GroupEnd => ")"@,
            LogicalOp::Equivalence => "equivalent to"@,
        },
        TokenModel::Seniority(level) => match level {
            SeniorityLevel::Exact(s) => "Exactly "@ + spec_standing_name(s),
            SeniorityLevel::Minimum(s) => "Minimum "@ + spec_standing_name(s),
        },
        TokenModel::Permission(kind) => match kind {
            PermissionKind::Instructor => "Instructor Permission"@,
            PermissionKind::DeanUndergraduate => "Undergraduate Dean Permission"@,
            PermissionKind::DeanGraduate => "Graduate Dean Permission"@,
        },
        TokenModel::Special(kind) => match kind {
            SpecialModel::Major(m) => "Major: "@ + m,
            SpecialModel::Pinnacle(b) => if b {
                "Pinnacle Scholar"@
            } else {
                "Not Pinnacle Scholar"@
            },
            SpecialModel::Cgpa(v) => "Minimum CGPA "@ + v,
        },
    }
}

/// The rendering of a whole sequence: tokens joined by single spaces.
pub open spec fn spec_render_tokens(ts: Seq<TokenModel>) -> Seq<char>
    decreases ts.len(),
{
    if ts.len() == 0 {
        Seq::empty()
    } else if ts.len() == 1 {
        spec_render_token(ts[0])
    } else {
        spec_render_tokens(ts.drop_last()) + seq![' '] + spec_render_token(ts.last())
    }
}

fn standing_name(s: Standing) -> (r: &'static str)
    ensures
        r@ == spec_standing_name(s),
{
    match s {
        Standing::Certificate => "Certificate",
        Standing::Freshman => "Freshman",
        Standing::Sophomore => "Sophomore",
        Standing::Junior => "Junior",
        Standing::Senior => "Senior",
        Standing::Graduate => "Graduate",
        Standing::Doctorate => "Doctorate",
    }
}

impl Token {
    /// The canonical one-line textual form of this token. Rendering is a
    /// one-way projection: grouping is flattened into plain text, and the
    /// result is not meant to tokenize back to the same sequence.
    pub fn render(&self) -> (r: String)
        ensures
            r@ == spec_render_token(self@),
    {
        match self {
            Token::CoursePrereq(id) => id.id_string(),
            Token::CourseCoreq(id) => {
                let mut out = String::from_str("Corequisite ");
                let tail = id.id_string();
                out.append(tail.as_str());
                out
            },
            Token::Logical(op) => match op {
                LogicalOp::Or => String::from_str("or"),
                LogicalOp::And => String::from_str("and"),
                LogicalOp::GroupStart => String::from_str("("),
                LogicalOp::GroupEnd => String::from_str(")"),
                LogicalOp::Equivalence => String::from_str("equivalent to"),
            },
            Token::Seniority(level) => match level {
                SeniorityLevel::Exact(s) => {
                    let mut out = String::from_str("Exactly ");
                    out.append(standing_name(*s));
                    out
                },
                SeniorityLevel::Minimum(s) => {
                    let mut out = String::from_str("Minimum ");
                    out.append(standing_name(*s));
                    out
                },
            },
            Token::Permission(kind) => match kind {
                PermissionKind::Instructor => String::from_str("Instructor Permission"),
                PermissionKind::DeanUndergraduate => String::from_str(
                    "Undergraduate Dean Permission",
                ),
                PermissionKind::DeanGraduate => String::from_str("Graduate Dean Permission"),
            },
            Token::Special(kind) => match kind {
                SpecialKind::Major(m) => {
                    let mut out = String::from_str("Major: ");
                    out.append(m.as_str());
                    out
                },
                SpecialKind::Pinnacle(b) => if *b {
                    String::from_str("Pinnacle Scholar")
                } else {
                    String::from_str("Not Pinnacle Scholar")
                },
                SpecialKind::Cgpa(v) => {
                    let mut out = String::from_str("Minimum CGPA ");
                    out.append(v.as_str());
                    out
                },
            },
        }
    }
}

/// Renders a token sequence as one line, the tokens joined by spaces.
/// This is a one-way projection of the expression: grouping and operator
/// structure are flattened, so the text is for human display only.
pub fn render_tokens(tokens: &Vec<Token>) -> (r: String)
    ensures
        r@ == spec_render_tokens(tokens.deep_view()),
{
    let mut out = String::new();
    let n = tokens.len();
    for i in 0..n
        invariant
            n == tokens@.len(),
            out@ == spec_render_tokens(tokens.deep_view().take(i as int)),
    {
        if i > 0 {
            push_char(&mut out, ' ');
        }
        let piece = tokens[i].render();
        out.append(piece.as_str());
        proof {
            let dv = tokens.deep_view();
            assert(dv.take(i + 1).drop_last() =~= dv.take(i as int));
            assert(dv.take(i + 1).last() == dv[i as int]);
        }
    }
    proof {
        assert(tokens.deep_view().take(n as int) =~= tokens.deep_view());
    }
    out
}

// Factory helpers, in place of global token constants: each builds one
// commonly used token value.
impl Token {
    pub fn or_op() -> (r: Token)
        ensures
            r@ == TokenModel::Logical(LogicalOp::Or),
    {
        Token::Logical(LogicalOp::Or)
    }

    pub fn and_op() -> (r: Token)
        ensures
            r@ == TokenModel::Logical(LogicalOp::And),
    {
        Token::Logical(LogicalOp::And)
    }

    pub fn group_start() -> (r: Token)
        ensures
            r@ == TokenModel::Logical(LogicalOp::GroupStart),
    {
        Token::Logical(LogicalOp::GroupStart)
    }

    pub fn group_end() -> (r: Token)
        ensures
            r@ == TokenModel::Logical(LogicalOp::GroupEnd),
    {
        Token::Logical(LogicalOp::GroupEnd)
    }

    pub fn exactly(s: Standing) -> (r: Token)
        ensures
            r@ == TokenModel::Seniority(SeniorityLevel::Exact(s)),
    {
        Token::Seniority(SeniorityLevel::Exact(s))
    }

    pub fn at_minimum(s: Standing) -> (r: Token)
        ensures
            r@ == TokenModel::Seniority(SeniorityLevel::Minimum(s)),
    {
        Token::Seniority(SeniorityLevel::Minimum(s))
    }
}

} // verus!
