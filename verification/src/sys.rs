//! Reading what system tools print: the lines that match a pattern, the
//! parts of them that a group captures, and the numbers among them.

use crate::error::UtilError;
use crate::pattern::{
    captures, compile, finds, group_views, pattern_captures, pattern_finds, pattern_valid,
    Pattern,
};
use crate::text::{parse_u32, unsigned_value};
use crate::tree::text_of;
use vstd::prelude::*;
use vstd::string::*;

verus! {

/// The characters of each of `lines`.
pub open spec fn line_views(lines: Seq<String>) -> Seq<Seq<char>> {
    lines.map_values(|line: String| line@)
}

/// What a group of a pattern captures in a text: nothing where the pattern
/// has no match, has no such group, or the group took no part in the match.
pub open spec fn group_text(pattern: Seq<char>, text: Seq<char>, group: int) -> Option<Seq<char>> {
    match pattern_captures(pattern, text) {
        Some(groups) => if 0 <= group < groups.len() {
            groups[group]
        } else {
            None
        },
        None => None,
    }
}

/// What the group captures in the first of `lines` in which it captures
/// anything.
pub open spec fn first_group(lines: Seq<Seq<char>>, pattern: Seq<char>, group: int) -> Option<
    Seq<char>,
>
    decreases lines.len(),
{
    if lines.len() == 0 {
        None
    } else {
        match group_text(pattern, lines[0], group) {
            Some(text) => Some(text),
            None => first_group(lines.drop_first(), pattern, group),
        }
    }
}

/// The first of `lines` in which the pattern has a match.
pub open spec fn first_match(lines: Seq<Seq<char>>, pattern: Seq<char>) -> Option<Seq<char>>
    decreases lines.len(),
{
    if lines.len() == 0 {
        None
    } else if pattern_finds(pattern, lines[0]) {
        Some(lines[0])
    } else {
        first_match(lines.drop_first(), pattern)
    }
}

/// The numbers among `texts`: each text that is there and stands for a
/// number that fits a `u32`, in order.
pub open spec fn numbers_among(texts: Seq<Option<Seq<char>>>) -> Seq<u32>
    decreases texts.len(),
{
    if texts.len() == 0 {
        Seq::empty()
    } else {
        let before = numbers_among(texts.drop_last());
        match texts.last() {
            Some(text) => match unsigned_value(text) {
                Some(number) => before.push(number),
                None => before,
            },
            None => before,
        }
    }
}

/// What a group of the expression captures in a text.
pub fn captured(compiled: &Pattern, text: &str, group: usize) -> (found: Option<String>)
    ensures
        text_of(found) == group_text(compiled.source(), text@, group as int),
{
    match captures(compiled, text) {
        Some(groups) => {
            if group < groups.len() {
                assert(group_views(Some(groups))->0[group as int] == text_of(groups@[group as int]));
                match &groups[group] {
                    Some(text) => Some(String::from_str(text.as_str())),
                    None => None,
                }
            } else {
                None
            }
        },
        None => None,
    }
}

/// What a group of a pattern captures in the first line in which it
/// captures anything. A pattern that does not compile is reported.
pub fn first_captured(lines: &Vec<String>, pattern: &str, group: usize) -> (r: Result<
    Option<String>,
    UtilError,
>)
    ensures
        pattern_valid(pattern@) ==> r is Ok && text_of(r->Ok_0) == first_group(
            line_views(lines@),
            pattern@,
            group as int,
        ),
        !pattern_valid(pattern@) ==> r is Err && r->Err_0.is_pattern(pattern@),
{
    let compiled = match compile(pattern) {
        Ok(compiled) => compiled,
        Err(e) => {
            return Err(e);
        },
    };
    let ghost all = line_views(lines@);
    let mut i: usize = 0;
    assert(all.skip(0) =~= all);
    while i < lines.len()
        invariant
            i <= lines.len(),
            all == line_views(lines@),
            compiled.source() == pattern@,
            pattern_valid(pattern@),
            first_group(all, pattern@, group as int) == first_group(
                all.skip(i as int),
                pattern@,
                group as int,
            ),
        decreases lines.len() - i,
    {
        proof {
            assert(all.skip(i as int)[0] == lines@[i as int]@);
            assert(all.skip(i as int).drop_first() =~= all.skip(i as int + 1));
        }
        match captured(&compiled, lines[i].as_str(), group) {
            Some(text) => {
                return Ok(Some(text));
            },
            None => {},
        }
        i = i + 1;
    }
    assert(all.skip(lines.len() as int) =~= Seq::<Seq<char>>::empty());
    Ok(None)
}

/// The first line in which a pattern has a match. A pattern that does not
/// compile is reported.
pub fn first_matching(lines: &Vec<String>, pattern: &str) -> (r: Result<Option<String>, UtilError>)
    ensures
        pattern_valid(pattern@) ==> r is Ok && text_of(r->Ok_0) == first_match(
            line_views(lines@),
            pattern@,
        ),
        !pattern_valid(pattern@) ==> r is Err && r->Err_0.is_pattern(pattern@),
{
    let compiled = match compile(pattern) {
        Ok(compiled) => compiled,
        Err(e) => {
            return Err(e);
        },
    };
    let ghost all = line_views(lines@);
    let mut i: usize = 0;
    assert(all.skip(0) =~= all);
    while i < lines.len()
        invariant
            i <= lines.len(),
            all == line_views(lines@),
            compiled.source() == pattern@,
            pattern_valid(pattern@),
            first_match(all, pattern@) == first_match(all.skip(i as int), pattern@),
        decreases lines.len() - i,
    {
        proof {
            assert(all.skip(i as int)[0] == lines@[i as int]@);
            assert(all.skip(i as int).drop_first() =~= all.skip(i as int + 1));
        }
        if finds(&compiled, lines[i].as_str()) {
            return Ok(Some(String::from_str(lines[i].as_str())));
        }
        i = i + 1;
    }
    assert(all.skip(lines.len() as int) =~= Seq::<Seq<char>>::empty());
    Ok(None)
}

/// The numbers that a group of a pattern captures in `lines`: for each line
/// in which the group captures a number that fits a `u32`, that number. A
/// pattern that does not compile is reported.
pub fn captured_numbers(lines: &Vec<String>, pattern: &str, group: usize) -> (r: Result<
    Vec<u32>,
    UtilError,
>)
    ensures
        pattern_valid(pattern@) ==> r is Ok && r->Ok_0@ == numbers_among(
            line_views(lines@).map_values(|line: Seq<char>| group_text(pattern@, line, group as int)),
        ),
        !pattern_valid(pattern@) ==> r is Err && r->Err_0.is_pattern(pattern@),
{
    let compiled = match compile(pattern) {
        Ok(compiled) => compiled,
        Err(e) => {
            return Err(e);
        },
    };
    let ghost texts = line_views(lines@).map_values(
        |line: Seq<char>| group_text(pattern@, line, group as int),
    );
    let mut numbers: Vec<u32> = Vec::new();
    let mut i: usize = 0;
    assert(numbers@ =~= numbers_among(texts.take(0)));
    while i < lines.len()
        invariant
            i <= lines.len(),
            texts == line_views(lines@).map_values(
                |line: Seq<char>| group_text(pattern@, line, group as int),
            ),
            compiled.source() == pattern@,
            pattern_valid(pattern@),
            numbers@ == numbers_among(texts.take(i as int)),
        decreases lines.len() - i,
    {
        proof {
            let seen = texts.take(i as int + 1);
            assert(seen.drop_last() =~= texts.take(i as int));
            assert(seen.last() == group_text(pattern@, lines@[i as int]@, group as int));
        }
        match captured(&compiled, lines[i].as_str(), group) {
            Some(text) => match parse_u32(text.as_str()) {
                Some(number) => {
                    numbers.push(number);
                },
                None => {},
            },
            None => {},
        }
        i = i + 1;
    }
    assert(texts.take(lines.len() as int) =~= texts);
    Ok(numbers)
}

/// The process identifiers among the words that a process lookup printed:
/// every word that is a number that fits, in order.
pub fn pidof(words: &Vec<String>) -> (pids: Vec<u32>)
    ensures
        pids@ == numbers_among(line_views(words@).map_values(|word: Seq<char>| Some(word))),
{
    let ghost texts = line_views(words@).map_values(|word: Seq<char>| Some(word));
    let mut pids: Vec<u32> = Vec::new();
    let mut i: usize = 0;
    assert(pids@ =~= numbers_among(texts.take(0)));
    while i < words.len()
        invariant
            i <= words.len(),
            texts == line_views(words@).map_values(|word: Seq<char>| Some(word)),
            pids@ == numbers_among(texts.take(i as int)),
        decreases words.len() - i,
    {
        proof {
            let seen = texts.take(i as int + 1);
            assert(seen.drop_last() =~= texts.take(i as int));
            assert(seen.last() == Some(words@[i as int]@));
        }
        match parse_u32(words[i].as_str()) {
            Some(pid) => {
                pids.push(pid);
            },
            None => {},
        }
        i = i + 1;
    }
    assert(texts.take(words.len() as int) =~= texts);
    pids
}

} // verus!
