use vstd::prelude::*;

use crate::models::validation_error::ValidationError;

verus! {

/// ASCII whitespace: the separator between the words of a habit name.
pub open spec fn is_space(c: char) -> bool {
    c == ' ' || c == '\t' || c == '\n' || c == '\r' || c == '\x0b' || c == '\x0c'
}

/// Whether position `i` starts a word: a non-space character standing at the
/// beginning or right after a space.
pub open spec fn starts_word(s: Seq<char>, i: int) -> bool {
    &&& 0 <= i < s.len()
    &&& !is_space(s[i])
    &&& (i == 0 || is_space(s[i - 1]))
}

/// The number of whitespace-separated words in `s`.
pub open spec fn word_count(s: Seq<char>) -> nat
    decreases s.len(),
{
    if s.len() == 0 {
        0
    } else {
        word_count(s.drop_last()) + if starts_word(s, s.len() - 1) {
            1nat
        } else {
            0nat
        }
    }
}

/// A habit name is valid when it is non-empty, has at most three words, and
/// at most fifty characters.
pub open spec fn name_valid(s: Seq<char>) -> bool {
    &&& s.len() > 0
    &&& word_count(s) <= 3
    &&& s.len() <= 50
}

/// The diagnostic that rejecting `s` as a habit name carries: the rules are
/// tried in the order empty, word count, length.
pub open spec fn name_error_message(s: Seq<char>) -> Seq<char> {
    if s.len() == 0 {
        "Habit's Name cannot be empty!"@
    } else if word_count(s) > 3 {
        "Habit's name cannot have more than 3 words!!"@
    } else {
        "Habit's name cannot be longer than 50 characters!"@
    }
}

pub proof fn lemma_word_count_le_len(s: Seq<char>)
    ensures
        word_count(s) <= s.len(),
    decreases s.len(),
{
    if s.len() > 0 {
        lemma_word_count_le_len(s.drop_last());
    }
}

/// A validated habit name. Its view is the wrapped character sequence.
#[derive(PartialEq, Debug, Clone, Hash, Eq)]
pub struct HabitName(pub String);

impl View for HabitName {
    type V = Seq<char>;

    open spec fn view(&self) -> Seq<char> {
        self.0@
    }
}

impl DeepView for HabitName {
    type V = Seq<char>;

    open spec fn deep_view(&self) -> Seq<char> {
        self.0@
    }
}

fn is_space_char(c: char) -> (r: bool)
    ensures
        r == is_space(c),
{
    c == ' ' || c == '\t' || c == '\n' || c == '\r' || c == '\x0b' || c == '\x0c'
}

/// Counts the whitespace-separated words of `s`.
pub fn count_words(s: &str) -> (n: usize)
    ensures
        n == word_count(s@),
{
    let len = s.unicode_len();
    let mut i: usize = 0;
    let mut n: usize = 0;
    let mut prev_space: bool = true;
    while i < len
        invariant
            i <= len,
            len == s@.len(),
            n == word_count(s@.subrange(0, i as int)),
            prev_space == (i == 0 || is_space(s@[i as int - 1])),
            n <= i,
        decreases len - i,
    {
        let c = s.get_char(i);
        proof {
            assert(s@.subrange(0, i as int + 1).drop_last() =~= s@.subrange(0, i as int));
            lemma_word_count_le_len(s@.subrange(0, i as int + 1));
        }
        if prev_space && !is_space_char(c) {
            n = n + 1;
        }
        prev_space = is_space_char(c);
        i = i + 1;
    }
    proof {
        assert(s@.subrange(0, len as int) =~= s@);
    }
    n
}

impl HabitName {
    /// Validates and wraps a habit name: it must be non-empty, have at most
    /// three whitespace-separated words, and at most fifty characters.
    pub fn new(name: String) -> (r: Result<HabitName, ValidationError>)
        ensures
            r is Ok <==> name_valid(name@),
            r matches Ok(n) ==> n@ == name@,
            r matches Err(e) ==> e@ == name_error_message(name@),
    {
        let len = name.as_str().unicode_len();
        if len == 0 {
            Err(ValidationError::new("Habit's Name cannot be empty!"))
        } else if count_words(name.as_str()) > 3 {
            Err(ValidationError::new("Habit's name cannot have more than 3 words!!"))
        } else if len > 50 {
            Err(ValidationError::new("Habit's name cannot be longer than 50 characters!"))
        } else {
            Ok(HabitName(name))
        }
    }
}

} // verus!
