//! GNU Make dependency files, as compilers write them.
use vstd::prelude::*;

use crate::bstr;

verus! {

broadcast use bstr::lemma_views_push;

pub const BACKSLASH: u8 = 0x5c;

pub const COLON: u8 = 0x3a;

pub const DOLLAR: u8 = 0x24;

pub const HASH: u8 = 0x23;

pub const LINE_FEED: u8 = 0x0a;

pub const CARRIAGE_RETURN: u8 = 0x0d;

pub const SPACE: u8 = 0x20;

pub const TAB: u8 = 0x09;

/// A decoded GNU Make dependency file.
#[derive(Clone, Debug, Default, PartialEq, Eq)]
pub struct Depfile {
    /// Rules in file order.
    pub rules: Vec<DepfileRule>,
}

/// A decoded dependency-file rule.
#[derive(Clone, Debug, PartialEq, Eq)]
pub struct DepfileRule {
    /// Rule targets in source order.
    pub targets: Vec<Vec<u8>>,
    /// Rule prerequisites in source order.
    pub prerequisites: Vec<Vec<u8>>,
}

/// The contents of a `DepfileRule`.
#[verifier::ext_equal]
pub struct Rule {
    pub targets: Seq<Seq<u8>>,
    pub prerequisites: Seq<Seq<u8>>,
}

impl View for DepfileRule {
    type V = Rule;

    open spec fn view(&self) -> Rule {
        Rule {
            targets: bstr::views(self.targets@),
            prerequisites: bstr::views(self.prerequisites@),
        }
    }
}

impl View for Depfile {
    type V = Seq<Rule>;

    open spec fn view(&self) -> Seq<Rule> {
        self.rules@.map_values(|rule: DepfileRule| rule@)
    }
}

impl DepfileRule {
    /// Whether this is a rule without prerequisites, such as `-MP` asks for.
    pub fn is_dummy(&self) -> (yes: bool)
        ensures
            yes == (self@.prerequisites.len() == 0),
    {
        self.prerequisites.len() == 0
    }
}

/// Why a dependency file cannot be decoded.
#[derive(Clone, Copy, Debug, PartialEq, Eq, Structural)]
pub enum DepfileError {
    MissingTarget,
    MissingSeparator,
}

impl DepfileError {
    /// What went wrong.
    pub fn message(&self) -> (text: &'static str)
        ensures
            text@ == match *self {
                DepfileError::MissingTarget => "dependency rule has no target"@,
                DepfileError::MissingSeparator => "dependency rule has no separator"@,
            },
    {
        match self {
            DepfileError::MissingTarget => "dependency rule has no target",
            DepfileError::MissingSeparator => "dependency rule has no separator",
        }
    }
}

/// What follows the spaces and tabs at the start of a text.
pub open spec fn after_blanks(text: Seq<u8>) -> Seq<u8>
    decreases text.len(),
{
    if text.len() > 0 && (text[0] == SPACE || text[0] == TAB) {
        after_blanks(text.skip(1))
    } else {
        text
    }
}

/// What follows an escaped line end, which may be one or two bytes.
pub open spec fn after_line_end(text: Seq<u8>) -> Seq<u8> {
    if text[1] == CARRIAGE_RETURN && text.len() > 2 && text[2] == LINE_FEED {
        text.skip(3)
    } else {
        text.skip(2)
    }
}

/// The text starts with a backslash before a line end.
pub open spec fn continues(text: Seq<u8>) -> bool {
    text.len() >= 2 && text[0] == BACKSLASH && (text[1] == LINE_FEED || text[1] == CARRIAGE_RETURN)
}

/// The text with each continuation, and the blanks after it, replaced by a space.
pub open spec fn continued(text: Seq<u8>) -> Seq<u8>
    decreases text.len(),
{
    if text.len() == 0 {
        Seq::empty()
    } else if continues(text) {
        proof {
            lemma_after_blanks_len(after_line_end(text));
        }
        seq![SPACE] + continued(after_blanks(after_line_end(text)))
    } else {
        seq![text[0]] + continued(text.skip(1))
    }
}

/// Leaving blanks out does not lengthen a text.
pub proof fn lemma_after_blanks_len(text: Seq<u8>)
    ensures
        after_blanks(text).len() <= text.len(),
    decreases text.len(),
{
    if text.len() > 0 && (text[0] == SPACE || text[0] == TAB) {
        lemma_after_blanks_len(text.skip(1));
    }
}

/// The number of backslashes just before `index`.
pub open spec fn backslashes_before(line: Seq<u8>, index: int) -> nat
    decreases index,
{
    if 0 < index <= line.len() && line[index - 1] == BACKSLASH {
        1 + backslashes_before(line, index - 1)
    } else {
        0
    }
}

/// An even number of backslashes stands before `index`, so that none of them escapes it.
pub open spec fn unescaped(line: Seq<u8>, index: int) -> bool {
    backslashes_before(line, index) % 2 == 0
}

/// A comment starts at `index`.
pub open spec fn starts_comment(line: Seq<u8>, index: int) -> bool {
    line[index] == HASH && unescaped(line, index)
}

/// The length of the line up to its comment, from `index` on.
pub open spec fn comment_from(line: Seq<u8>, index: int) -> int
    decreases line.len() - index,
{
    if index >= line.len() || starts_comment(line, index) {
        index
    } else {
        comment_from(line, index + 1)
    }
}

/// The line without its comment.
pub open spec fn uncommented(line: Seq<u8>) -> Seq<u8> {
    line.take(comment_from(line, 0))
}

/// The targets of a rule end at `index`: at a colon before white space or the end.
pub open spec fn separates(line: Seq<u8>, index: int) -> bool {
    &&& line[index] == COLON
    &&& unescaped(line, index)
    &&& index + 1 >= line.len() || bstr::is_space(line[index + 1])
}

/// The first separator from `index` on.
pub open spec fn separator_from(line: Seq<u8>, index: int) -> Option<int>
    decreases line.len() - index,
{
    if index >= line.len() {
        None
    } else if separates(line, index) {
        Some(index)
    } else {
        separator_from(line, index + 1)
    }
}

/// A word that has ended, where it is not empty.
pub open spec fn ended(word: Seq<u8>) -> Seq<Seq<u8>> {
    if word.len() > 0 {
        seq![word]
    } else {
        Seq::empty()
    }
}

/// The words of a text that continues `word`. White space ends a word, a backslash keeps the byte
/// after it, and two dollar signs stand for one.
pub open spec fn words_from(text: Seq<u8>, word: Seq<u8>) -> Seq<Seq<u8>>
    decreases text.len(),
{
    if text.len() == 0 {
        ended(word)
    } else if bstr::is_space(text[0]) {
        ended(word) + words_from(text.skip(1), Seq::empty())
    } else if text[0] == BACKSLASH && text.len() >= 2 {
        words_from(text.skip(2), word.push(text[1]))
    } else if text[0] == DOLLAR && text.len() >= 2 && text[1] == DOLLAR {
        words_from(text.skip(2), word.push(DOLLAR))
    } else {
        words_from(text.skip(1), word.push(text[0]))
    }
}

/// The words of a text.
pub open spec fn words(text: Seq<u8>) -> Seq<Seq<u8>> {
    words_from(text, Seq::empty())
}

/// Every byte of a line is white space.
pub open spec fn is_blank(line: Seq<u8>) -> bool {
    forall|at: int| 0 <= at < line.len() ==> bstr::is_space(#[trigger] line[at])
}

/// The rule of one line, of which a blank line has none.
pub open spec fn rule_of(line: Seq<u8>) -> Result<Seq<Rule>, DepfileError> {
    let text = uncommented(line);
    if is_blank(text) {
        Ok(Seq::empty())
    } else {
        match separator_from(text, 0) {
            None => Err(DepfileError::MissingSeparator),
            Some(index) => {
                let targets = words(text.take(index));
                if targets.len() == 0 {
                    Err(DepfileError::MissingTarget)
                } else {
                    Ok(seq![Rule { targets, prerequisites: words(text.skip(index + 1)) }])
                }
            },
        }
    }
}

/// The length of the first line.
pub open spec fn line_len(text: Seq<u8>) -> nat
    decreases text.len(),
{
    if text.len() == 0 || text[0] == LINE_FEED || text[0] == CARRIAGE_RETURN {
        0
    } else {
        1 + line_len(text.skip(1))
    }
}

/// The rules of a text without continuations, or the first error.
pub open spec fn rules_of(text: Seq<u8>) -> Result<Seq<Rule>, DepfileError>
    decreases text.len(),
{
    let end = line_len(text) as int;
    match rule_of(text.take(end)) {
        Err(error) => Err(error),
        Ok(first) => if end >= text.len() {
            Ok(first)
        } else {
            match rules_of(text.skip(end + 1)) {
                Err(error) => Err(error),
                Ok(rest) => Ok(first + rest),
            }
        },
    }
}

/// The rules of a dependency file.
pub open spec fn decoded(input: Seq<u8>) -> Result<Seq<Rule>, DepfileError> {
    rules_of(continued(input))
}

fn join_continuations(input: &[u8]) -> (output: Vec<u8>)
    ensures
        output@ == continued(input@),
{
    let mut output: Vec<u8> = Vec::new();
    let mut index: usize = 0;
    assert(input@.skip(0) =~= input@);
    while index < input.len()
        invariant
            index <= input.len(),
            output@ + continued(input@.skip(index as int)) =~= continued(input@),
        decreases input.len() - index,
    {
        let ghost rest = input@.skip(index as int);
        let ghost done = output@;
        assert(rest[0] == input@[index as int]);
        assert(rest.len() >= 2 ==> rest[1] == input@[index + 1]);
        assert(rest.len() >= 3 ==> rest[2] == input@[index + 2]);
        if input.len() - index >= 2 && input[index] == BACKSLASH && (input[index + 1] == LINE_FEED
            || input[index + 1] == CARRIAGE_RETURN) {
            let two_bytes = input[index + 1] == CARRIAGE_RETURN && input.len() - index > 2
                && input[index + 2] == LINE_FEED;
            let start = index;
            if two_bytes {
                index += 3;
            } else {
                index += 2;
            }
            assert(after_line_end(rest) =~= input@.skip(index as int));
            let ghost after = input@.skip(index as int);
            while index < input.len() && (input[index] == SPACE || input[index] == TAB)
                invariant
                    index <= input.len(),
                    start < index,
                    after_blanks(input@.skip(index as int)) == after_blanks(after),
                decreases input.len() - index,
            {
                assert(input@.skip(index as int)[0] == input@[index as int]);
                assert(input@.skip(index as int).skip(1) =~= input@.skip(index + 1));
                index += 1;
            }
            proof {
                if index < input.len() {
                    assert(input@.skip(index as int)[0] == input@[index as int]);
                }
                assert(after_blanks(after) == input@.skip(index as int));
            }
            output.push(SPACE);
            assert(continued(rest) == seq![SPACE] + continued(input@.skip(index as int)));
            assert(output@ + continued(input@.skip(index as int)) =~= done + continued(rest));
        } else {
            assert(rest.skip(1) =~= input@.skip(index + 1));
            output.push(input[index]);
            index += 1;
        }
    }
    assert(input@.skip(index as int) =~= Seq::empty());
    output
}

fn preceding_backslashes(line: &[u8], index: usize) -> (count: usize)
    requires
        index <= line@.len(),
    ensures
        count == backslashes_before(line@, index as int),
{
    let mut count: usize = 0;
    while count < index && line[index - count - 1] == BACKSLASH
        invariant
            count <= index <= line@.len(),
            backslashes_before(line@, index as int) == count + backslashes_before(
                line@,
                index - count,
            ),
        decreases index - count,
    {
        count += 1;
    }
    count
}

fn strip_comment(line: &[u8]) -> (text: &[u8])
    ensures
        text@ == uncommented(line@),
{
    let mut index: usize = 0;
    while index < line.len()
        invariant
            index <= line.len(),
            comment_from(line@, 0) == comment_from(line@, index as int),
        decreases line.len() - index,
    {
        if line[index] == HASH && preceding_backslashes(line, index) % 2 == 0 {
            return bstr::take(line, index);
        }
        index += 1;
    }
    bstr::take(line, index)
}

fn rule_separator(line: &[u8]) -> (separator: Option<usize>)
    ensures
        match separator {
            Some(index) => index < line.len() && separator_from(line@, 0) == Some(index as int),
            None => separator_from(line@, 0) is None,
        },
{
    let mut index: usize = 0;
    while index < line.len()
        invariant
            index <= line.len(),
            separator_from(line@, 0) == separator_from(line@, index as int),
        decreases line.len() - index,
    {
        if line[index] == COLON && preceding_backslashes(line, index) % 2 == 0 && (index + 1
            >= line.len() || bstr::space(line[index + 1])) {
            return Some(index);
        }
        index += 1;
    }
    None
}

fn decode_words(text: &[u8]) -> (decoded_words: Vec<Vec<u8>>)
    ensures
        bstr::views(decoded_words@) == words(text@),
{
    let mut found: Vec<Vec<u8>> = Vec::new();
    let mut word: Vec<u8> = Vec::new();
    let mut index: usize = 0;
    assert(text@.skip(0) =~= text@);
    assert(word@ =~= Seq::empty());
    assert(bstr::views(found@) =~= Seq::empty());
    while index < text.len()
        invariant
            index <= text.len(),
            bstr::views(found@) + words_from(text@.skip(index as int), word@) =~= words(text@),
        decreases text.len() - index,
    {
        let ghost rest = text@.skip(index as int);
        let ghost done = bstr::views(found@);
        let byte: u8 = text[index];
        assert(rest[0] == byte);
        assert(rest.len() >= 2 ==> rest[1] == text@[index + 1]);
        if bstr::space(byte) {
            assert(rest.skip(1) =~= text@.skip(index + 1));
            if word.len() > 0 {
                let complete = bstr::copy(word.as_slice());
                found.push(complete);
                word = Vec::new();
            }
            assert(word@ =~= Seq::empty());
            index += 1;
        } else if byte == BACKSLASH && text.len() - index >= 2 {
            assert(rest.skip(2) =~= text@.skip(index + 2));
            word.push(text[index + 1]);
            index += 2;
        } else if byte == DOLLAR && text.len() - index >= 2 && text[index + 1] == DOLLAR {
            assert(rest.skip(2) =~= text@.skip(index + 2));
            word.push(DOLLAR);
            index += 2;
        } else {
            assert(rest.skip(1) =~= text@.skip(index + 1));
            word.push(byte);
            index += 1;
        }
    }
    assert(text@.skip(index as int) =~= Seq::empty());
    if word.len() > 0 {
        found.push(word);
    }
    found
}

proof fn lemma_line_len(text: Seq<u8>, end: int)
    requires
        0 <= end <= text.len(),
        forall|at: int| 0 <= at < end ==> text[at] != LINE_FEED && text[at] != CARRIAGE_RETURN,
        end < text.len() ==> text[end] == LINE_FEED || text[end] == CARRIAGE_RETURN,
    ensures
        line_len(text) == end,
    decreases text.len(),
{
    if text.len() > 0 && end > 0 {
        assert forall|at: int| 0 <= at < end - 1 implies text.skip(1)[at] != LINE_FEED
            && text.skip(1)[at] != CARRIAGE_RETURN by {
            assert(text.skip(1)[at] == text[at + 1]);
        }
        lemma_line_len(text.skip(1), end - 1);
    }
}

fn blank(line: &[u8]) -> (yes: bool)
    ensures
        yes == is_blank(line@),
{
    let mut index: usize = 0;
    while index < line.len()
        invariant
            index <= line.len(),
            forall|at: int| 0 <= at < index ==> bstr::is_space(#[trigger] line@[at]),
        decreases line.len() - index,
    {
        if !bstr::space(line[index]) {
            assert(!bstr::is_space(line@[index as int]));
            return false;
        }
        index += 1;
    }
    true
}

fn push_rule(rules: &mut Vec<DepfileRule>, line: &[u8]) -> (refused: Option<DepfileError>)
    ensures
        match refused {
            Some(error) => rule_of(line@) == Err::<Seq<Rule>, DepfileError>(error),
            None => {
                &&& rule_of(line@) is Ok
                &&& final(rules)@.map_values(|rule: DepfileRule| rule@) == old(rules)@.map_values(
                    |rule: DepfileRule| rule@,
                ) + rule_of(line@)->Ok_0
            },
        },
{
    let ghost before = rules@.map_values(|rule: DepfileRule| rule@);
    let text = strip_comment(line);
    if blank(text) {
        assert(rules@.map_values(|rule: DepfileRule| rule@) =~= before + Seq::empty());
        return None;
    }
    let separator = match rule_separator(text) {
        Some(separator) => separator,
        None => {
            return Some(DepfileError::MissingSeparator);
        },
    };
    let targets = decode_words(bstr::take(text, separator));
    let prerequisites = decode_words(bstr::skip(text, separator + 1));
    if targets.len() == 0 {
        return Some(DepfileError::MissingTarget);
    }
    let rule = DepfileRule { targets, prerequisites };
    rules.push(rule);
    assert(rules@.map_values(|rule: DepfileRule| rule@) =~= before + seq![rule@]);
    None
}

/// Decodes a GNU Make dependency file. Paths need not be UTF-8.
pub fn parse(input: &[u8]) -> (outcome: Result<Depfile, DepfileError>)
    ensures
        match outcome {
            Ok(depfile) => decoded(input@) == Ok::<Seq<Rule>, DepfileError>(depfile@),
            Err(error) => decoded(input@) == Err::<Seq<Rule>, DepfileError>(error),
        },
{
    let logical = join_continuations(input);
    let text = logical.as_slice();
    let mut rules: Vec<DepfileRule> = Vec::new();
    let mut start: usize = 0;
    assert(text@.skip(0) =~= text@);
    assert(rules@.map_values(|rule: DepfileRule| rule@) =~= Seq::empty());
    loop
        invariant
            start <= text.len(),
            text@ == continued(input@),
            match rules_of(text@.skip(start as int)) {
                Err(error) => rules_of(text@) == Err::<Seq<Rule>, DepfileError>(error),
                Ok(rest) => {
                    &&& rules_of(text@) is Ok
                    &&& rules_of(text@)->Ok_0 =~= rules@.map_values(|rule: DepfileRule| rule@)
                        + rest
                },
            },
        decreases text.len() - start,
    {
        let mut end: usize = start;
        while end < text.len() && text[end] != LINE_FEED && text[end] != CARRIAGE_RETURN
            invariant
                start <= end <= text.len(),
                forall|at: int|
                    start <= at < end ==> text@[at] != LINE_FEED && text@[at] != CARRIAGE_RETURN,
            decreases text.len() - end,
        {
            end += 1;
        }
        let rest = bstr::skip(text, start);
        let line = bstr::take(rest, end - start);
        proof {
            lemma_line_len(rest@, end - start);
        }
        let ghost before = rules@.map_values(|rule: DepfileRule| rule@);
        let refused = push_rule(&mut rules, line);
        if let Some(error) = refused {
            return Err(error);
        }
        if end >= text.len() {
            return Ok(Depfile { rules });
        }
        assert(rest@.skip(end - start + 1) =~= text@.skip(end + 1));
        start = end + 1;
    }
}

/// Decodes a GNU Make dependency file. Paths need not be UTF-8.
pub fn parse_depfile(input: &[u8]) -> (outcome: Result<Depfile, DepfileError>)
    ensures
        match outcome {
            Ok(depfile) => decoded(input@) == Ok::<Seq<Rule>, DepfileError>(depfile@),
            Err(error) => decoded(input@) == Err::<Seq<Rule>, DepfileError>(error),
        },
{
    parse(input)
}

proof fn lemma_words_not_empty(text: Seq<u8>, word: Seq<u8>, at: int)
    requires
        0 <= at < words_from(text, word).len(),
    ensures
        words_from(text, word)[at].len() > 0,
    decreases text.len(),
{
    if text.len() > 0 {
        if bstr::is_space(text[0]) {
            if at >= ended(word).len() {
                lemma_words_not_empty(text.skip(1), Seq::empty(), at - ended(word).len());
            }
        } else if text[0] == BACKSLASH && text.len() >= 2 {
            lemma_words_not_empty(text.skip(2), word.push(text[1]), at);
        } else if text[0] == DOLLAR && text.len() >= 2 && text[1] == DOLLAR {
            lemma_words_not_empty(text.skip(2), word.push(DOLLAR), at);
        } else {
            lemma_words_not_empty(text.skip(1), word.push(text[0]), at);
        }
    }
}

proof fn lemma_rules_have_targets(text: Seq<u8>, at: int)
    requires
        rules_of(text) is Ok,
        0 <= at < rules_of(text)->Ok_0.len(),
    ensures
        rules_of(text)->Ok_0[at].targets.len() > 0,
        forall|word: int|
            0 <= word < rules_of(text)->Ok_0[at].targets.len() ==> (
            #[trigger] rules_of(text)->Ok_0[at].targets[word]).len() > 0,
        forall|word: int|
            0 <= word < rules_of(text)->Ok_0[at].prerequisites.len() ==> (
            #[trigger] rules_of(text)->Ok_0[at].prerequisites[word]).len() > 0,
    decreases text.len(),
{
    let end = line_len(text) as int;
    let first = rule_of(text.take(end))->Ok_0;
    if at < first.len() {
        let line = uncommented(text.take(end));
        let index = separator_from(line, 0)->0;
        assert(rules_of(text)->Ok_0[at] == first[at]);
        assert forall|word: int| 0 <= word < first[at].targets.len() implies (
        #[trigger] first[at].targets[word]).len() > 0 by {
            lemma_words_not_empty(line.take(index), Seq::empty(), word);
        }
        assert forall|word: int| 0 <= word < first[at].prerequisites.len() implies (
        #[trigger] first[at].prerequisites[word]).len() > 0 by {
            lemma_words_not_empty(line.skip(index + 1), Seq::empty(), word);
        }
    } else {
        lemma_rules_have_targets(text.skip(end + 1), at - first.len());
    }
}

/// A decoded rule has a target, and no target or prerequisite of it is empty.
pub proof fn law_rules_have_targets(input: Seq<u8>, at: int)
    requires
        decoded(input) is Ok,
        0 <= at < decoded(input)->Ok_0.len(),
    ensures
        decoded(input)->Ok_0[at].targets.len() > 0,
        forall|word: int|
            0 <= word < decoded(input)->Ok_0[at].targets.len() ==> (
            #[trigger] decoded(input)->Ok_0[at].targets[word]).len() > 0,
        forall|word: int|
            0 <= word < decoded(input)->Ok_0[at].prerequisites.len() ==> (
            #[trigger] decoded(input)->Ok_0[at].prerequisites[word]).len() > 0,
{
    lemma_rules_have_targets(continued(input), at);
}

/// The form in which a word stands in a dependency file: white space, backslashes and comment signs
/// behind a backslash, dollar signs doubled.
pub open spec fn quoted(word: Seq<u8>) -> Seq<u8>
    decreases word.len(),
{
    if word.len() == 0 {
        Seq::empty()
    } else {
        (if word[0] == DOLLAR {
            seq![DOLLAR, DOLLAR]
        } else if bstr::is_space(word[0]) || word[0] == BACKSLASH || word[0] == HASH {
            seq![BACKSLASH, word[0]]
        } else {
            seq![word[0]]
        }) + quoted(word.skip(1))
    }
}

proof fn lemma_quoted(word: Seq<u8>, before: Seq<u8>, after: Seq<u8>)
    requires
        after.len() == 0 || bstr::is_space(after[0]),
    ensures
        words_from(quoted(word) + after, before) == words_from(after, before + word),
    decreases word.len(),
{
    if word.len() == 0 {
        assert(quoted(word) + after =~= after);
        assert(before + word =~= before);
    } else {
        let rest = quoted(word.skip(1)) + after;
        let text = quoted(word) + after;
        lemma_quoted(word.skip(1), before.push(word[0]), after);
        assert(before.push(word[0]) + word.skip(1) =~= before + word);
        if word[0] == DOLLAR {
            assert(text[0] == DOLLAR && text[1] == DOLLAR);
            assert(text.skip(2) =~= rest);
        } else if bstr::is_space(word[0]) || word[0] == BACKSLASH || word[0] == HASH {
            assert(text[0] == BACKSLASH && text[1] == word[0]);
            assert(text.skip(2) =~= rest);
        } else {
            assert(text[0] == word[0]);
            assert(text.skip(1) =~= rest);
        }
    }
}

/// Words are kept byte for byte: a word that is quoted for a dependency file decodes to itself,
/// whatever bytes it holds.
pub proof fn law_quoted_word_is_kept(word: Seq<u8>)
    requires
        word.len() > 0,
    ensures
        words(quoted(word)) == seq![word],
{
    lemma_quoted(word, Seq::empty(), Seq::empty());
    assert(quoted(word) + Seq::<u8>::empty() =~= quoted(word));
    assert(Seq::<u8>::empty() + word =~= word);
}

} // verus!
