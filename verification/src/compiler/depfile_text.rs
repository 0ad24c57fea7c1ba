//! Dependency files as they are written, and what they decode to.
use vstd::prelude::*;

use crate::bstr;
use crate::compiler::depfile;
use crate::compiler::depfile::{DepfileError, Rule};

verus! {

/// How a byte of a file name is written: a dollar sign is doubled, and white space, a backslash and
/// a number sign stand behind a backslash.
pub open spec fn escape(byte: u8) -> Seq<u8> {
    if byte == 0x24 {
        seq![0x24u8, 0x24u8]
    } else if byte == 0x20 || byte == 0x09 || byte == 0x0c || byte == 0x5c || byte == 0x23 {
        seq![0x5cu8, byte]
    } else {
        seq![byte]
    }
}

/// How a file name is written.
pub open spec fn escaped(word: Seq<u8>) -> Seq<u8>
    decreases word.len(),
{
    if word.len() == 0 {
        Seq::empty()
    } else {
        escape(word[0]) + escaped(word.skip(1))
    }
}

/// Spaces, tabs and continuations: a backslash and a line end.
pub open spec fn only_gaps(gap: Seq<u8>) -> bool
    decreases gap.len(),
{
    if gap.len() == 0 {
        true
    } else if gap[0] == 0x20 || gap[0] == 0x09 {
        only_gaps(gap.skip(1))
    } else if gap.len() >= 3 && gap[0] == 0x5c && gap[1] == 0x0d && gap[2] == 0x0a {
        only_gaps(gap.skip(3))
    } else if gap.len() >= 2 && gap[0] == 0x5c && (gap[1] == 0x0a || gap[1] == 0x0d) {
        only_gaps(gap.skip(2))
    } else {
        false
    }
}

/// What can stand between two words.
pub open spec fn is_gap(gap: Seq<u8>) -> bool {
    gap.len() > 0 && only_gaps(gap)
}

/// Words, each behind its gap.
pub open spec fn spread(words: Seq<Seq<u8>>, gaps: Seq<Seq<u8>>) -> Seq<u8>
    decreases words.len(),
{
    if words.len() == 0 {
        Seq::empty()
    } else {
        gaps[0] + (escaped(words[0]) + spread(words.skip(1), gaps.skip(1)))
    }
}

/// A rule as it is written: its words, what stands between them, and what ends it.
pub struct Written {
    pub targets: Seq<Seq<u8>>,
    /// What stands before each target but the first.
    pub target_gaps: Seq<Seq<u8>>,
    pub prerequisites: Seq<Seq<u8>>,
    /// What stands before each prerequisite.
    pub gaps: Seq<Seq<u8>>,
    pub comment: Seq<u8>,
    pub line_end: Seq<u8>,
}

/// A file name that a rule can hold.
pub open spec fn is_name(word: Seq<u8>) -> bool {
    word.len() > 0 && forall|at: int|
        0 <= at < word.len() ==> #[trigger] word[at] != 0x0a && word[at] != 0x0d
}

/// The words of a list are names, and a gap stands before each.
pub open spec fn is_spread(words: Seq<Seq<u8>>, gaps: Seq<Seq<u8>>) -> bool {
    &&& words.len() == gaps.len()
    &&& forall|at: int| 0 <= at < words.len() ==> is_name(#[trigger] words[at])
    &&& forall|at: int| 0 <= at < gaps.len() ==> is_gap(#[trigger] gaps[at])
}

/// A rule with at least one target. No target but the last ends in a colon, which would end the
/// targets, and no backslash stands before the line end, which would continue the line.
pub open spec fn is_written(rule: Written) -> bool {
    &&& rule.targets.len() > 0
    &&& is_name(rule.targets[0])
    &&& is_spread(rule.targets.skip(1), rule.target_gaps)
    &&& is_spread(rule.prerequisites, rule.gaps)
    &&& forall|at: int|
        0 <= at < rule.targets.len() - 1 ==> (#[trigger] rule.targets[at]).last() != 0x3a
    &&& is_comment(rule.comment)
    &&& rule.comment.len() == 0 && rule.prerequisites.len() > 0 ==> rule.prerequisites.last().last()
        != 0x5c
    &&& rule.line_end == seq![0x0au8] || rule.line_end == seq![0x0du8] || rule.line_end
        == seq![0x0du8, 0x0au8]
}

/// No comment, or a space, a number sign and the text behind it.
pub open spec fn is_comment(comment: Seq<u8>) -> bool {
    comment.len() > 0 ==> {
        &&& comment.len() >= 2 && comment[0] == 0x20 && comment[1] == 0x23
        &&& forall|at: int|
            0 <= at < comment.len() ==> #[trigger] comment[at] != 0x0a && comment[at] != 0x0d
        &&& comment.last() != 0x5c
    }
}

/// The targets, a colon and the prerequisites.
pub open spec fn body_of(rule: Written) -> Seq<u8> {
    targets_of(rule) + (seq![0x3au8] + spread(rule.prerequisites, rule.gaps))
}

/// The targets.
pub open spec fn targets_of(rule: Written) -> Seq<u8> {
    escaped(rule.targets[0]) + spread(rule.targets.skip(1), rule.target_gaps)
}

/// The text of a list of rules.
pub open spec fn text_of(rules: Seq<Written>) -> Seq<u8>
    decreases rules.len(),
{
    if rules.len() == 0 {
        Seq::empty()
    } else {
        body_of(rules[0]) + (rules[0].comment + (rules[0].line_end + text_of(rules.skip(1))))
    }
}

/// What is written.
pub open spec fn meant(rules: Seq<Written>) -> Seq<Rule> {
    rules.map_values(
        |rule: Written| Rule { targets: rule.targets, prerequisites: rule.prerequisites },
    )
}

proof fn lemma_after_blanks(first: Seq<u8>, second: Seq<u8>)
    requires
        second.len() == 0 || (second[0] != 0x20 && second[0] != 0x09),
    ensures
        depfile::after_blanks(first + second) == depfile::after_blanks(first) + second,
    decreases first.len(),
{
    if first.len() == 0 {
        assert(first + second =~= second);
        assert(depfile::after_blanks(first) + second =~= second);
    } else if first[0] == 0x20 || first[0] == 0x09 {
        assert((first + second).skip(1) =~= first.skip(1) + second);
        lemma_after_blanks(first.skip(1), second);
    }
}

/// Continuations are joined part by part.
proof fn lemma_joined(first: Seq<u8>, second: Seq<u8>)
    requires
        second.len() == 0 || (second[0] != 0x20 && second[0] != 0x09 && second[0] != 0x0a
            && second[0] != 0x0d),
    ensures
        depfile::continued(first + second) == depfile::continued(first) + depfile::continued(second),
    decreases first.len(),
{
    let whole = first + second;
    if first.len() == 0 {
        assert(whole =~= second);
        assert(depfile::continued(first) + depfile::continued(second) =~= depfile::continued(
            second,
        ));
    } else if depfile::continues(first) {
        let after = depfile::after_line_end(first);
        assert(depfile::after_line_end(whole) =~= after + second);
        lemma_after_blanks(after, second);
        depfile::lemma_after_blanks_len(after);
        lemma_joined(depfile::after_blanks(after), second);
        assert(depfile::continued(whole) =~= depfile::continued(first) + depfile::continued(second));
    } else {
        assert(!depfile::continues(whole));
        assert(whole.skip(1) =~= first.skip(1) + second);
        lemma_joined(first.skip(1), second);
        assert(depfile::continued(whole) =~= depfile::continued(first) + depfile::continued(second));
    }
}

/// What holds no line end is kept.
proof fn lemma_kept(first: Seq<u8>, second: Seq<u8>)
    requires
        forall|at: int| 0 <= at < first.len() ==> #[trigger] first[at] != 0x0a && first[at] != 0x0d,
        first.len() == 0 || first.last() != 0x5c || second.len() == 0 || (second[0] != 0x0a
            && second[0] != 0x0d),
    ensures
        depfile::continued(first + second) == first + depfile::continued(second),
    decreases first.len(),
{
    let whole = first + second;
    if first.len() == 0 {
        assert(whole =~= second);
        assert(first + depfile::continued(second) =~= depfile::continued(second));
    } else {
        assert(whole.skip(1) =~= first.skip(1) + second);
        if first.len() > 1 {
            assert(first.skip(1).last() == first.last());
            assert(whole[1] == first[1]);
        }
        assert(!depfile::continues(whole));
        assert forall|at: int| 0 <= at < first.skip(1).len() implies #[trigger] first.skip(1)[at]
            != 0x0a && first.skip(1)[at] != 0x0d by {
            assert(first.skip(1)[at] == first[at + 1]);
        }
        lemma_kept(first.skip(1), second);
        assert(depfile::continued(whole) =~= first + depfile::continued(second));
    }
}

/// Only spaces and tabs.
pub open spec fn only_blanks(text: Seq<u8>) -> bool {
    forall|at: int| 0 <= at < text.len() ==> #[trigger] text[at] == 0x20 || text[at] == 0x09
}

proof fn lemma_only_gaps_after(gap: Seq<u8>)
    requires
        only_gaps(gap),
    ensures
        only_gaps(depfile::after_blanks(gap)),
    decreases gap.len(),
{
    if gap.len() > 0 && (gap[0] == 0x20 || gap[0] == 0x09) {
        lemma_only_gaps_after(gap.skip(1));
    }
}

/// Joined gaps are blanks.
proof fn lemma_flat(gap: Seq<u8>)
    requires
        only_gaps(gap),
    ensures
        only_blanks(depfile::continued(gap)),
        gap.len() > 0 ==> depfile::continued(gap).len() > 0,
    decreases gap.len(),
{
    if gap.len() > 0 {
        if gap[0] == 0x20 || gap[0] == 0x09 {
            lemma_flat(gap.skip(1));
        } else {
            let after = depfile::after_line_end(gap);
            assert(depfile::continues(gap));
            assert(only_gaps(after));
            lemma_only_gaps_after(after);
            depfile::lemma_after_blanks_len(after);
            lemma_flat(depfile::after_blanks(after));
        }
    }
}

proof fn lemma_escaped_bytes(word: Seq<u8>)
    requires
        forall|at: int| 0 <= at < word.len() ==> #[trigger] word[at] != 0x0a && word[at] != 0x0d,
    ensures
        forall|at: int|
            0 <= at < escaped(word).len() ==> #[trigger] escaped(word)[at] != 0x0a && escaped(
                word,
            )[at] != 0x0d,
        word.len() > 0 ==> escaped(word).len() > 0 && !bstr::is_space(escaped(word)[0]),
        word.len() > 0 && word.last() != 0x5c ==> escaped(word).last() != 0x5c,
    decreases word.len(),
{
    if word.len() > 0 {
        let rest = word.skip(1);
        assert forall|at: int| 0 <= at < rest.len() implies #[trigger] rest[at] != 0x0a && rest[at]
            != 0x0d by {
            assert(rest[at] == word[at + 1]);
        }
        lemma_escaped_bytes(rest);
        let first = escape(word[0]);
        let all = escaped(word);
        assert(all == first + escaped(rest));
        assert forall|at: int| 0 <= at < all.len() implies #[trigger] all[at] != 0x0a && all[at]
            != 0x0d by {
            if at >= first.len() {
                assert(all[at] == escaped(rest)[at - first.len()]);
            } else {
                assert(all[at] == first[at]);
            }
        }
        if rest.len() == 0 {
            assert(all =~= first);
        } else {
            assert(rest.last() == word.last());
            assert(all.last() == escaped(rest).last());
        }
    }
}

/// The gaps with their continuations joined.
pub open spec fn joined(gaps: Seq<Seq<u8>>) -> Seq<Seq<u8>> {
    gaps.map_values(|gap: Seq<u8>| depfile::continued(gap))
}

proof fn lemma_spread_joined(words: Seq<Seq<u8>>, gaps: Seq<Seq<u8>>, rest: Seq<u8>)
    requires
        is_spread(words, gaps),
        words.len() == 0 || words.last().last() != 0x5c || rest.len() == 0 || (rest[0] != 0x0a
            && rest[0] != 0x0d),
    ensures
        depfile::continued(spread(words, gaps) + rest) == spread(words, joined(gaps))
            + depfile::continued(rest),
    decreases words.len(),
{
    if words.len() == 0 {
        assert(spread(words, gaps) + rest =~= rest);
        assert(spread(words, joined(gaps)) + depfile::continued(rest) =~= depfile::continued(rest));
    } else {
        let word = words[0];
        assert(is_name(word) && is_gap(gaps[0]));
        lemma_escaped_bytes(word);
        let later = spread(words.skip(1), gaps.skip(1));
        let after = escaped(word) + (later + rest);
        assert(spread(words, gaps) + rest =~= gaps[0] + after);
        assert(after[0] == escaped(word)[0]);
        lemma_joined(gaps[0], after);
        if words.len() > 1 {
            assert(is_gap(gaps[1]));
            assert(gaps.skip(1)[0] == gaps[1]);
            assert(words.skip(1).last() == words.last());
            assert((later + rest)[0] == gaps[1][0]);
            assert(only_gaps(gaps[1]));
        } else {
            assert(later + rest =~= rest);
        }
        lemma_kept(escaped(word), later + rest);
        assert(is_spread(words.skip(1), gaps.skip(1))) by {
            assert forall|at: int| 0 <= at < words.skip(1).len() implies is_name(
                #[trigger] words.skip(1)[at],
            ) by {
                assert(words.skip(1)[at] == words[at + 1]);
            }
            assert forall|at: int| 0 <= at < gaps.skip(1).len() implies is_gap(
                #[trigger] gaps.skip(1)[at],
            ) by {
                assert(gaps.skip(1)[at] == gaps[at + 1]);
            }
        }
        lemma_spread_joined(words.skip(1), gaps.skip(1), rest);
        assert(joined(gaps).skip(1) =~= joined(gaps.skip(1)));
        assert(joined(gaps)[0] == depfile::continued(gaps[0]));
        assert(depfile::continued(spread(words, gaps) + rest) =~= spread(words, joined(gaps))
            + depfile::continued(rest));
    }
}

/// Blanks stand before each word of a list.
spec fn is_flat(words: Seq<Seq<u8>>, gaps: Seq<Seq<u8>>) -> bool {
    &&& words.len() == gaps.len()
    &&& forall|at: int| 0 <= at < words.len() ==> is_name(#[trigger] words[at])
    &&& forall|at: int|
        0 <= at < gaps.len() ==> (#[trigger] gaps[at]).len() > 0 && only_blanks(gaps[at])
}

proof fn lemma_is_flat(words: Seq<Seq<u8>>, gaps: Seq<Seq<u8>>)
    requires
        is_spread(words, gaps),
    ensures
        is_flat(words, joined(gaps)),
{
    assert forall|at: int| 0 <= at < joined(gaps).len() implies (#[trigger] joined(gaps)[at]).len()
        > 0 && only_blanks(joined(gaps)[at]) by {
        assert(is_gap(gaps[at]));
        lemma_flat(gaps[at]);
    }
}

proof fn lemma_flat_tail(words: Seq<Seq<u8>>, gaps: Seq<Seq<u8>>)
    requires
        is_flat(words, gaps),
        words.len() > 0,
    ensures
        is_flat(words.skip(1), gaps.skip(1)),
{
    assert forall|at: int| 0 <= at < words.skip(1).len() implies is_name(
        #[trigger] words.skip(1)[at],
    ) by {
        assert(words.skip(1)[at] == words[at + 1]);
    }
    assert forall|at: int| 0 <= at < gaps.skip(1).len() implies (#[trigger] gaps.skip(1)[at]).len()
        > 0 && only_blanks(gaps.skip(1)[at]) by {
        assert(gaps.skip(1)[at] == gaps[at + 1]);
    }
}

proof fn lemma_no_line_end(words: Seq<Seq<u8>>, gaps: Seq<Seq<u8>>)
    requires
        is_flat(words, gaps),
    ensures
        forall|at: int|
            0 <= at < spread(words, gaps).len() ==> #[trigger] spread(words, gaps)[at] != 0x0a
                && spread(words, gaps)[at] != 0x0d,
    decreases words.len(),
{
    if words.len() > 0 {
        assert(is_name(words[0]));
        lemma_escaped_bytes(words[0]);
        lemma_flat_tail(words, gaps);
        lemma_no_line_end(words.skip(1), gaps.skip(1));
        let later = spread(words.skip(1), gaps.skip(1));
        let all = spread(words, gaps);
        assert(gaps[0].len() > 0 && only_blanks(gaps[0]));
        assert forall|at: int| 0 <= at < all.len() implies #[trigger] all[at] != 0x0a && all[at]
            != 0x0d by {
            let lead = gaps[0].len();
            let middle = escaped(words[0]).len();
            if at < lead {
                assert(all[at] == gaps[0][at]);
            } else if at < lead + middle {
                assert(all[at] == escaped(words[0])[at - lead]);
            } else {
                assert(all[at] == later[at - lead - middle]);
            }
        }
    }
}

/// The text stands in a line from `start` on.
spec fn stands_at(line: Seq<u8>, start: int, text: Seq<u8>) -> bool {
    &&& 0 <= start && start + text.len() <= line.len()
    &&& forall|at: int|
        #![trigger text[at]]
        #![trigger line[start + at]]
        0 <= at < text.len() ==> line[start + at] == text[at]
}

proof fn lemma_stands(line: Seq<u8>, start: int, first: Seq<u8>, second: Seq<u8>)
    requires
        stands_at(line, start, first + second),
    ensures
        stands_at(line, start, first),
        stands_at(line, start + first.len(), second),
{
    let whole = first + second;
    assert forall|at: int|
        #![trigger first[at]]
        #![trigger line[start + at]]
        0 <= at < first.len() implies line[start + at] == first[at] by {
        assert(whole[at] == first[at]);
    }
    assert forall|at: int|
        #![trigger second[at]]
        #![trigger line[start + first.len() + at]]
        0 <= at < second.len() implies line[start + first.len() + at] == second[at] by {
        assert(whole[first.len() + at] == second[at]);
        assert(line[start + (first.len() + at)] == whole[first.len() + at]);
    }
}

/// Within a written word no comment starts and nothing separates targets from prerequisites, except
/// for a colon at its end, and what follows is not escaped.
proof fn lemma_word_scan(line: Seq<u8>, start: int, word: Seq<u8>)
    requires
        stands_at(line, start, escaped(word)),
        depfile::unescaped(line, start),
        forall|at: int| 0 <= at < word.len() ==> #[trigger] word[at] != 0x0a && word[at] != 0x0d,
    ensures
        depfile::unescaped(line, start + escaped(word).len()),
        forall|at: int|
            start <= at < start + escaped(word).len() ==> !#[trigger] depfile::starts_comment(
                line,
                at,
            ),
        forall|at: int|
            start <= at < start + escaped(word).len() && #[trigger] depfile::separates(line, at)
                ==> at == start + escaped(word).len() - 1 && word.last() == 0x3a,
    decreases word.len(),
{
    if word.len() > 0 {
        let byte = word[0];
        let rest = word.skip(1);
        let piece = escape(byte);
        let end = start + escaped(word).len();
        assert(escaped(word) == piece + escaped(rest));
        lemma_stands(line, start, piece, escaped(rest));
        assert(line[start + 0] == piece[0]);
        let next = start + piece.len();
        if piece.len() == 2 {
            assert(line[start + 1] == piece[1]);
            if byte == 0x24 {
                assert(depfile::backslashes_before(line, start + 1) == 0);
                assert(depfile::backslashes_before(line, start + 2) == 0);
                assert(!depfile::separates(line, start + 1));
            } else {
                assert(depfile::backslashes_before(line, start + 1) == 1
                    + depfile::backslashes_before(line, start));
                assert(!depfile::unescaped(line, start + 1));
                if byte == 0x5c {
                    assert(depfile::backslashes_before(line, start + 2) == 1
                        + depfile::backslashes_before(line, start + 1));
                } else {
                    assert(depfile::backslashes_before(line, start + 2) == 0);
                }
            }
            assert(!depfile::starts_comment(line, start + 1));
            assert(!depfile::separates(line, start + 1));
        } else {
            assert(depfile::backslashes_before(line, start + 1) == 0);
        }
        assert(depfile::unescaped(line, next));
        assert forall|at: int| 0 <= at < rest.len() implies #[trigger] rest[at] != 0x0a && rest[at]
            != 0x0d by {
            assert(rest[at] == word[at + 1]);
        }
        lemma_word_scan(line, next, rest);
        if rest.len() > 0 {
            assert(rest.last() == word.last());
            lemma_escaped_bytes(rest);
            assert(line[next + 0] == escaped(rest)[0]);
            assert(!depfile::separates(line, start)) by {
                if piece.len() == 1 {
                    assert(line[start + 1] == escaped(rest)[0]);
                }
            }
        } else {
            assert(escaped(rest).len() == 0);
        }
        assert forall|at: int| start <= at < end implies !#[trigger] depfile::starts_comment(
            line,
            at,
        ) by {
            if at >= next {
            } else if at == start {
            } else {
                assert(at == start + 1);
            }
        }
        assert forall|at: int|
            start <= at < end && #[trigger] depfile::separates(line, at) implies at == end - 1
            && word.last() == 0x3a by {
            if at >= next {
            } else if at == start {
                assert(rest.len() == 0);
                assert(line[start] == byte);
                assert(word.last() == byte);
            } else {
                assert(at == start + 1);
            }
        }
    }
}

/// Within words and the blanks before them no comment starts, nothing separates targets from
/// prerequisites except for a colon at the end, and what follows is not escaped.
proof fn lemma_spread_scan(line: Seq<u8>, start: int, words: Seq<Seq<u8>>, gaps: Seq<Seq<u8>>)
    requires
        is_flat(words, gaps),
        stands_at(line, start, spread(words, gaps)),
        depfile::unescaped(line, start),
    ensures
        depfile::unescaped(line, start + spread(words, gaps).len()),
        forall|at: int|
            start <= at < start + spread(words, gaps).len() ==> !#[trigger] depfile::starts_comment(
                line,
                at,
            ),
        (forall|at: int| 0 <= at < words.len() - 1 ==> (#[trigger] words[at]).last() != 0x3a)
            ==> forall|at: int|
            start <= at < start + spread(words, gaps).len() && #[trigger] depfile::separates(
                line,
                at,
            ) ==> at == start + spread(words, gaps).len() - 1,
    decreases words.len(),
{
    if words.len() > 0 {
        let word = words[0];
        let gap = gaps[0];
        let later = spread(words.skip(1), gaps.skip(1));
        assert(is_name(word) && gap.len() > 0 && only_blanks(gap));
        lemma_stands(line, start, gap, escaped(word) + later);
        let middle = start + gap.len();
        lemma_stands(line, middle, escaped(word), later);
        let next = middle + escaped(word).len();
        assert(line[start + (gap.len() - 1)] == gap[gap.len() - 1]);
        assert(depfile::backslashes_before(line, middle) == 0);
        lemma_word_scan(line, middle, word);
        lemma_flat_tail(words, gaps);
        lemma_spread_scan(line, next, words.skip(1), gaps.skip(1));
        let end = start + spread(words, gaps).len();
        assert(end == next + later.len());
        assert forall|at: int| start <= at < end implies !#[trigger] depfile::starts_comment(
            line,
            at,
        ) by {
            if at < middle {
                assert(line[start + (at - start)] == gap[at - start]);
            }
        }
        if forall|at: int| 0 <= at < words.len() - 1 ==> (#[trigger] words[at]).last() != 0x3a {
            assert forall|at: int| 0 <= at < words.skip(1).len() - 1 implies (
            #[trigger] words.skip(1)[at]).last() != 0x3a by {
                assert(words.skip(1)[at] == words[at + 1]);
            }
            assert forall|at: int|
                start <= at < end && #[trigger] depfile::separates(line, at) implies at == end
                - 1 by {
                if at < middle {
                    assert(line[start + (at - start)] == gap[at - start]);
                } else if at < next {
                    if words.len() > 1 {
                        assert(words[0].last() != 0x3a);
                    } else {
                        assert(later.len() == 0);
                    }
                }
            }
        }
    }
}

proof fn lemma_comment_from(line: Seq<u8>, from: int, end: int)
    requires
        0 <= from <= end <= line.len(),
        forall|at: int| from <= at < end ==> !#[trigger] depfile::starts_comment(line, at),
        end == line.len() || depfile::starts_comment(line, end),
    ensures
        depfile::comment_from(line, from) == end,
    decreases end - from,
{
    if from < end {
        assert(!depfile::starts_comment(line, from));
        lemma_comment_from(line, from + 1, end);
    }
}

proof fn lemma_separator_from(line: Seq<u8>, from: int, end: int)
    requires
        0 <= from <= end < line.len(),
        forall|at: int| from <= at < end ==> !#[trigger] depfile::separates(line, at),
        depfile::separates(line, end),
    ensures
        depfile::separator_from(line, from) == Some(end),
    decreases end - from,
{
    if from < end {
        assert(!depfile::separates(line, from));
        lemma_separator_from(line, from + 1, end);
    }
}

proof fn lemma_word(word: Seq<u8>, before: Seq<u8>, after: Seq<u8>)
    requires
        after.len() == 0 || bstr::is_space(after[0]),
        forall|at: int| 0 <= at < word.len() ==> #[trigger] word[at] != 0x0a && word[at] != 0x0d,
    ensures
        depfile::words_from(escaped(word) + after, before) == depfile::words_from(
            after,
            before + word,
        ),
    decreases word.len(),
{
    let text = escaped(word) + after;
    if word.len() == 0 {
        assert(text =~= after);
        assert(before + word =~= before);
    } else {
        let rest = word.skip(1);
        assert forall|at: int| 0 <= at < rest.len() implies #[trigger] rest[at] != 0x0a && rest[at]
            != 0x0d by {
            assert(rest[at] == word[at + 1]);
        }
        lemma_word(rest, before.push(word[0]), after);
        assert(before.push(word[0]) + rest =~= before + word);
        let piece = escape(word[0]);
        assert(text[0] == piece[0]);
        assert(text.skip(piece.len() as int) =~= escaped(rest) + after);
        if piece.len() == 2 {
            assert(text[1] == piece[1]);
        } else {
            assert(!bstr::is_space(text[0]));
        }
    }
}

proof fn lemma_blanks(blanks: Seq<u8>, rest: Seq<u8>, before: Seq<u8>)
    requires
        only_blanks(blanks),
        blanks.len() > 0,
    ensures
        depfile::words_from(blanks + rest, before) == depfile::ended(before) + depfile::words_from(
            rest,
            Seq::empty(),
        ),
    decreases blanks.len(),
{
    let text = blanks + rest;
    assert(text[0] == blanks[0]);
    let fewer = blanks.skip(1);
    assert(text.skip(1) =~= fewer + rest);
    if fewer.len() == 0 {
        assert(fewer + rest =~= rest);
    } else {
        assert forall|at: int| 0 <= at < fewer.len() implies #[trigger] fewer[at] == 0x20
            || fewer[at] == 0x09 by {
            assert(fewer[at] == blanks[at + 1]);
        }
        lemma_blanks(fewer, rest, Seq::empty());
        assert(Seq::<Seq<u8>>::empty() + depfile::words_from(rest, Seq::empty())
            =~= depfile::words_from(rest, Seq::empty()));
    }
}

/// Words behind blanks are read as they were written.
proof fn lemma_spread_words(
    words: Seq<Seq<u8>>,
    gaps: Seq<Seq<u8>>,
    tail: Seq<u8>,
    before: Seq<u8>,
)
    requires
        is_flat(words, gaps),
        only_blanks(tail),
    ensures
        depfile::words_from(spread(words, gaps) + tail, before) == depfile::ended(before) + words,
    decreases words.len(),
{
    if words.len() == 0 {
        assert(spread(words, gaps) + tail =~= tail);
        assert(depfile::ended(before) + words =~= depfile::ended(before));
        if tail.len() > 0 {
            lemma_blanks(tail, Seq::empty(), before);
            assert(tail + Seq::<u8>::empty() =~= tail);
            assert(depfile::ended(before) + depfile::ended(Seq::empty()) =~= depfile::ended(before));
        }
    } else {
        let word = words[0];
        let later = spread(words.skip(1), gaps.skip(1));
        assert(is_name(word) && gaps[0].len() > 0 && only_blanks(gaps[0]));
        let after = later + tail;
        assert(spread(words, gaps) + tail =~= gaps[0] + (escaped(word) + after));
        lemma_blanks(gaps[0], escaped(word) + after, before);
        lemma_flat_tail(words, gaps);
        if words.len() > 1 {
            assert(gaps.skip(1)[0].len() > 0 && only_blanks(gaps.skip(1)[0]));
            assert(after[0] == gaps.skip(1)[0][0]);
        } else {
            assert(after =~= tail);
        }
        lemma_word(word, Seq::empty(), after);
        assert(Seq::<u8>::empty() + word =~= word);
        lemma_spread_words(words.skip(1), gaps.skip(1), tail, word);
        assert(seq![word] + words.skip(1) =~= words);
        assert(depfile::ended(before) + (depfile::ended(word) + words.skip(1))
            =~= depfile::ended(before) + words);
    }
}

/// The rule with its continuations joined.
spec fn flat(rule: Written) -> Written {
    Written { target_gaps: joined(rule.target_gaps), gaps: joined(rule.gaps), ..rule }
}

/// A rule with its continuations joined is read as it was written.
#[verifier::spinoff_prover]
proof fn lemma_rule(rule: Written)
    requires
        is_written(rule),
    ensures
        depfile::rule_of(body_of(flat(rule)) + rule.comment) == Ok::<Seq<Rule>, DepfileError>(
            seq![Rule { targets: rule.targets, prerequisites: rule.prerequisites }],
        ),
        forall|at: int|
            0 <= at < (body_of(flat(rule)) + rule.comment).len() ==> #[trigger] (body_of(flat(rule))
                + rule.comment)[at] != 0x0a && (body_of(flat(rule)) + rule.comment)[at] != 0x0d,
{
    let others = rule.targets.skip(1);
    let first = escaped(rule.targets[0]);
    let target_gaps = joined(rule.target_gaps);
    let gaps = joined(rule.gaps);
    let spread_targets = spread(others, target_gaps);
    let spread_rest = spread(rule.prerequisites, gaps);
    let targets = first + spread_targets;
    let body = body_of(flat(rule));
    let line = body + rule.comment;
    lemma_is_flat(others, rule.target_gaps);
    lemma_is_flat(rule.prerequisites, rule.gaps);
    lemma_escaped_bytes(rule.targets[0]);
    lemma_no_line_end(others, target_gaps);
    lemma_no_line_end(rule.prerequisites, gaps);
    let colon = targets.len() as int;
    assert(body == targets + (seq![0x3au8] + spread_rest));
    assert(body[colon] == 0x3a);
    assert forall|at: int| 0 <= at < line.len() implies #[trigger] line[at] != 0x0a && line[at]
        != 0x0d by {
        if at < first.len() {
            assert(line[at] == first[at]);
        } else if at < colon {
            assert(line[at] == spread_targets[at - first.len()]);
        } else if at == colon {
        } else if at < body.len() {
            assert(line[at] == spread_rest[at - colon - 1]);
        } else {
            assert(line[at] == rule.comment[at - body.len()]);
        }
    }
    // No comment starts before the one that was written.
    let tail = if rule.comment.len() > 0 {
        seq![0x20u8]
    } else {
        Seq::empty()
    };
    let text = body + tail;
    lemma_body_scan(rule, line, target_gaps, gaps);
    lemma_body_scan(rule, text, target_gaps, gaps);
    let end = text.len() as int;
    if rule.comment.len() > 0 {
        assert(line[body.len() as int] == 0x20);
        assert(line[end] == 0x23);
        assert(depfile::backslashes_before(line, end) == 0);
        assert(depfile::starts_comment(line, end));
        assert(!depfile::starts_comment(line, body.len() as int));
    }
    lemma_comment_from(line, 0, end);
    assert(depfile::uncommented(line) =~= text);
    assert(!bstr::is_space(text[colon]));
    // The colon behind the targets is the first that separates.
    assert(depfile::separates(text, colon)) by {
        if colon + 1 < text.len() {
            if rule.prerequisites.len() > 0 {
                assert(gaps[0].len() > 0 && only_blanks(gaps[0]));
                assert(text[colon + 1] == gaps[0][0]);
            } else {
                assert(text[colon + 1] == tail[0]);
            }
        }
    }
    lemma_separator_from(text, 0, colon);
    assert(text.take(colon) =~= targets);
    assert(text.skip(colon + 1) =~= spread_rest + tail);
    // Both lists are read as they were written.
    if others.len() > 0 {
        assert(target_gaps[0].len() > 0 && only_blanks(target_gaps[0]));
        assert(spread_targets[0] == target_gaps[0][0]);
    }
    lemma_word(rule.targets[0], Seq::empty(), spread_targets);
    assert(Seq::<u8>::empty() + rule.targets[0] =~= rule.targets[0]);
    lemma_spread_words(others, target_gaps, Seq::empty(), rule.targets[0]);
    assert(spread_targets + Seq::<u8>::empty() =~= spread_targets);
    assert(seq![rule.targets[0]] + others =~= rule.targets);
    lemma_spread_words(rule.prerequisites, gaps, tail, Seq::empty());
    assert(depfile::ended(Seq::empty()) + rule.prerequisites =~= rule.prerequisites);
}

/// What holds of every line that starts with a rule.
#[verifier::spinoff_prover]
proof fn lemma_body_scan(
    rule: Written,
    line: Seq<u8>,
    target_gaps: Seq<Seq<u8>>,
    gaps: Seq<Seq<u8>>,
)
    requires
        is_written(rule),
        target_gaps == joined(rule.target_gaps),
        gaps == joined(rule.gaps),
        stands_at(line, 0, body_of(flat(rule))),
    ensures
        forall|at: int|
            0 <= at < body_of(flat(rule)).len() ==> !#[trigger] depfile::starts_comment(line, at),
        forall|at: int|
            0 <= at < targets_of(flat(rule)).len() ==> !#[trigger] depfile::separates(line, at),
        depfile::unescaped(line, targets_of(flat(rule)).len() as int),
{
    let others = rule.targets.skip(1);
    let first = escaped(rule.targets[0]);
    let spread_targets = spread(others, target_gaps);
    let spread_rest = spread(rule.prerequisites, gaps);
    let targets = targets_of(flat(rule));
    let colon = targets.len() as int;
    let body = body_of(flat(rule));
    lemma_is_flat(others, rule.target_gaps);
    lemma_is_flat(rule.prerequisites, rule.gaps);
    assert(targets == first + spread_targets);
    assert(body == targets + (seq![0x3au8] + spread_rest));
    lemma_stands(line, 0, targets, seq![0x3au8] + spread_rest);
    lemma_stands(line, 0, first, spread_targets);
    lemma_stands(line, colon, seq![0x3au8], spread_rest);
    assert(line[colon + 0] == seq![0x3au8][0]);
    assert(depfile::backslashes_before(line, 0) == 0);
    lemma_word_scan(line, 0, rule.targets[0]);
    lemma_spread_scan(line, first.len() as int, others, target_gaps);
    assert(depfile::backslashes_before(line, colon + 1) == 0);
    lemma_spread_scan(line, colon + 1, rule.prerequisites, gaps);
    assert forall|at: int| 0 <= at < body.len() implies !#[trigger] depfile::starts_comment(
        line,
        at,
    ) by {
        if at < first.len() {
        } else if at < colon {
        } else if at == colon {
        } else {
            assert(colon + 1 <= at < colon + 1 + spread_rest.len());
        }
    }
    assert forall|at: int| 0 <= at < others.len() - 1 implies (#[trigger] others[at]).last()
        != 0x3a by {
        assert(others[at] == rule.targets[at + 1]);
    }
    assert forall|at: int| 0 <= at < colon implies !#[trigger] depfile::separates(line, at) by {
        if depfile::separates(line, at) {
            // Only a colon at the end of the last target is left, and a colon follows it.
            if at < first.len() {
                if others.len() > 0 {
                    assert(rule.targets[0].last() != 0x3a);
                } else {
                    assert(spread_targets.len() == 0);
                }
            }
            assert(at == colon - 1);
            assert(line[at + 1] == 0x3a);
        }
    }
}

proof fn lemma_lines(line: Seq<u8>, line_end: Seq<u8>, rest: Seq<u8>)
    requires
        line_end == seq![0x0au8] || line_end == seq![0x0du8] || line_end == seq![0x0du8, 0x0au8],
        forall|at: int| 0 <= at < line.len() ==> #[trigger] line[at] != 0x0a && line[at] != 0x0d,
        depfile::rule_of(line) is Ok,
    ensures
        depfile::rules_of(line + (line_end + rest)) == (match depfile::rules_of(rest) {
            Ok(later) => Ok::<Seq<Rule>, DepfileError>(depfile::rule_of(line)->Ok_0 + later),
            Err(error) => Err(error),
        }),
{
    let text = line + (line_end + rest);
    let end = line.len() as int;
    assert(text[end] == line_end[0]);
    assert forall|at: int| 0 <= at < end implies text[at] != 0x0a && text[at] != 0x0d by {
        assert(text[at] == line[at]);
    }
    lemma_line_len(text, end);
    assert(text.take(end) =~= line);
    if line_end.len() == 1 {
        assert(text.skip(end + 1) =~= rest);
    } else {
        let feed = text.skip(end + 1);
        assert(feed =~= seq![0x0au8] + rest);
        lemma_line_len(feed, 0);
        assert(feed.take(0) =~= Seq::empty());
        assert(feed.skip(1) =~= rest);
        let none = Seq::<u8>::empty();
        assert(depfile::uncommented(none) =~= none);
        assert(depfile::rule_of(none) == Ok::<Seq<Rule>, DepfileError>(Seq::empty()));
        assert(depfile::rules_of(text) == (match depfile::rules_of(feed) {
            Ok(later) => Ok::<Seq<Rule>, DepfileError>(depfile::rule_of(line)->Ok_0 + later),
            Err(error) => Err(error),
        }));
        assert(depfile::rules_of(feed) == (match depfile::rules_of(rest) {
            Ok(later) => Ok::<Seq<Rule>, DepfileError>(Seq::<Rule>::empty() + later),
            Err(error) => Err(error),
        }));
        if depfile::rules_of(rest) is Ok {
            assert(Seq::<Rule>::empty() + depfile::rules_of(rest)->Ok_0 =~= depfile::rules_of(
                rest,
            )->Ok_0);
        }
    }
}

proof fn lemma_line_len(text: Seq<u8>, end: int)
    requires
        0 <= end <= text.len(),
        forall|at: int| 0 <= at < end ==> text[at] != 0x0a && text[at] != 0x0d,
        end < text.len() ==> text[end] == 0x0a || text[end] == 0x0d,
    ensures
        depfile::line_len(text) == end,
    decreases text.len(),
{
    if text.len() > 0 && end > 0 {
        assert forall|at: int| 0 <= at < end - 1 implies text.skip(1)[at] != 0x0a && text.skip(
            1,
        )[at] != 0x0d by {
            assert(text.skip(1)[at] == text[at + 1]);
        }
        lemma_line_len(text.skip(1), end - 1);
    }
}

/// Continuations in a written rule are joined, wherever they stand, and nothing else changes.
#[verifier::spinoff_prover]
proof fn lemma_joined_rule(rule: Written, rest: Seq<u8>)
    requires
        is_written(rule),
    ensures
        depfile::continued(body_of(rule) + (rule.comment + (rule.line_end + rest))) == (body_of(
            flat(rule),
        ) + rule.comment) + (rule.line_end + depfile::continued(rest)),
{
    let others = rule.targets.skip(1);
    let first = escaped(rule.targets[0]);
    let spread_targets = spread(others, rule.target_gaps);
    let spread_rest = spread(rule.prerequisites, rule.gaps);
    let ending = rule.line_end + rest;
    let after_rest = rule.comment + ending;
    let after_colon = spread_rest + after_rest;
    let after_targets = seq![0x3au8] + after_colon;
    let after_first = spread_targets + after_targets;
    lemma_escaped_bytes(rule.targets[0]);
    assert(body_of(rule) + after_rest =~= first + after_first);
    if others.len() > 0 {
        assert(is_gap(rule.target_gaps[0]));
        assert(only_gaps(rule.target_gaps[0]));
        assert(after_first[0] == rule.target_gaps[0][0]);
    } else {
        assert(after_first =~= after_targets);
    }
    lemma_kept(first, after_first);
    lemma_spread_joined(others, rule.target_gaps, after_targets);
    lemma_kept(seq![0x3au8], after_colon);
    if rule.comment.len() > 0 {
        assert(after_rest[0] == rule.comment[0]);
    }
    lemma_spread_joined(rule.prerequisites, rule.gaps, after_rest);
    lemma_kept(rule.comment, ending);
    lemma_ending(rule.line_end, rest);
    let last = rule.line_end + depfile::continued(rest);
    let flat_targets = spread(others, joined(rule.target_gaps));
    let flat_rest = spread(rule.prerequisites, joined(rule.gaps));
    assert(first + (flat_targets + (seq![0x3au8] + (flat_rest + (rule.comment + last)))) =~= (
    body_of(flat(rule)) + rule.comment) + last);
}

proof fn lemma_ending(line_end: Seq<u8>, rest: Seq<u8>)
    requires
        line_end == seq![0x0au8] || line_end == seq![0x0du8] || line_end == seq![0x0du8, 0x0au8],
    ensures
        depfile::continued(line_end + rest) == line_end + depfile::continued(rest),
{
    let text = line_end + rest;
    assert(text[0] == line_end[0]);
    assert(text.skip(1) =~= line_end.skip(1) + rest);
    if line_end.len() == 2 {
        let feed = line_end.skip(1) + rest;
        assert(feed[0] == 0x0a);
        assert(feed.skip(1) =~= rest);
        assert(depfile::continued(feed) == seq![0x0au8] + depfile::continued(rest));
    } else {
        assert(line_end.skip(1) + rest =~= rest);
    }
    assert(depfile::continued(text) == seq![text[0]] + depfile::continued(line_end.skip(1) + rest));
    assert(depfile::continued(text) =~= line_end + depfile::continued(rest));
}

/// What is written is read. A file of rules decodes to exactly these rules, in order, each with its
/// targets and prerequisites byte for byte, wherever lines are continued between the words, however
/// often, whatever ends a line, and with comments behind the rules.
pub proof fn law_written_rules_are_read(rules: Seq<Written>)
    requires
        forall|at: int| 0 <= at < rules.len() ==> is_written(#[trigger] rules[at]),
    ensures
        depfile::decoded(text_of(rules)) == Ok::<Seq<Rule>, DepfileError>(meant(rules)),
    decreases rules.len(),
{
    if rules.len() == 0 {
        let none = Seq::<u8>::empty();
        assert(depfile::continued(none) =~= none);
        assert(depfile::uncommented(none) =~= none);
        assert(none.take(0) =~= none);
        assert(depfile::rules_of(none) == Ok::<Seq<Rule>, DepfileError>(Seq::empty()));
        assert(meant(rules) =~= Seq::empty());
    } else {
        let rule = rules[0];
        let later = rules.skip(1);
        assert(is_written(rule));
        assert forall|at: int| 0 <= at < later.len() implies is_written(#[trigger] later[at]) by {
            assert(later[at] == rules[at + 1]);
        }
        law_written_rules_are_read(later);
        let rest = text_of(later);
        lemma_joined_rule(rule, rest);
        lemma_rule(rule);
        lemma_lines(
            body_of(flat(rule)) + rule.comment,
            rule.line_end,
            depfile::continued(rest),
        );
        assert(seq![Rule { targets: rule.targets, prerequisites: rule.prerequisites }] + meant(
            later,
        ) =~= meant(rules));
    }
}

proof fn lemma_separator_absent(line: Seq<u8>, from: int)
    requires
        0 <= from <= line.len(),
        forall|at: int| from <= at < line.len() ==> !#[trigger] depfile::separates(line, at),
    ensures
        depfile::separator_from(line, from) is None,
    decreases line.len() - from,
{
    if from < line.len() {
        assert(!depfile::separates(line, from));
        lemma_separator_absent(line, from + 1);
    }
}

/// A name that no colon follows is no rule, and neither are prerequisites without a target.
pub proof fn law_malformed_rules_are_refused(
    word: Seq<u8>,
    prerequisites: Seq<Seq<u8>>,
    gaps: Seq<Seq<u8>>,
)
    requires
        is_name(word),
        word.last() != 0x3a,
        is_spread(prerequisites, gaps),
    ensures
        depfile::decoded(escaped(word)) == Err::<Seq<Rule>, DepfileError>(
            DepfileError::MissingSeparator,
        ),
        depfile::decoded(seq![0x3au8] + spread(prerequisites, gaps)) == Err::<
            Seq<Rule>,
            DepfileError,
        >(DepfileError::MissingTarget),
{
    let none = Seq::<u8>::empty();
    let name = escaped(word);
    lemma_escaped_bytes(word);
    lemma_kept(name, none);
    assert(name + none =~= name);
    assert(name + depfile::continued(none) =~= name);
    lemma_line_len(name, name.len() as int);
    assert(name.take(name.len() as int) =~= name);
    assert(depfile::backslashes_before(name, 0) == 0);
    lemma_word_scan(name, 0, word);
    lemma_comment_from(name, 0, name.len() as int);
    lemma_separator_absent(name, 0);
    assert(!bstr::is_space(name[0]));
    let flat_gaps = joined(gaps);
    let rest = spread(prerequisites, flat_gaps);
    let line = seq![0x3au8] + rest;
    lemma_is_flat(prerequisites, gaps);
    lemma_kept(seq![0x3au8], spread(prerequisites, gaps));
    lemma_spread_joined(prerequisites, gaps, none);
    assert(spread(prerequisites, gaps) + none =~= spread(prerequisites, gaps));
    assert(rest + depfile::continued(none) =~= rest);
    lemma_no_line_end(prerequisites, flat_gaps);
    assert forall|at: int| 0 <= at < line.len() implies line[at] != 0x0a && line[at] != 0x0d by {
        if at > 0 {
            assert(line[at] == rest[at - 1]);
        }
    }
    lemma_line_len(line, line.len() as int);
    assert(line.take(line.len() as int) =~= line);
    assert(depfile::backslashes_before(line, 0) == 0);
    assert(depfile::backslashes_before(line, 1) == 0);
    lemma_stands(line, 0, seq![0x3au8], rest);
    lemma_spread_scan(line, 1, prerequisites, flat_gaps);
    assert(!depfile::starts_comment(line, 0));
    lemma_comment_from(line, 0, line.len() as int);
    assert(!bstr::is_space(line[0]));
    if prerequisites.len() > 0 {
        assert(flat_gaps[0].len() > 0 && only_blanks(flat_gaps[0]));
        assert(line[1] == flat_gaps[0][0]);
    }
    assert(depfile::separates(line, 0));
    assert(line.take(0) =~= none);
    assert(depfile::words(none) =~= Seq::empty());
}

} // verus!
