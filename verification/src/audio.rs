//! Audio: the volume steps, the sinks and inputs that the sound server
//! lists, and the choice of the next sink.

use crate::error::UtilError;
use crate::pattern::{captures, compile, group_views, pattern_valid};
use crate::sys::{
    captured_numbers, first_captured, first_group, group_text, line_views, numbers_among,
};
use crate::text::{digits, natural_text, parse_u32, same_text, unsigned_value};
use vstd::prelude::*;
use vstd::string::*;

verus! {

/// An audio sink: its index and its name.
#[derive(Clone, Debug, PartialEq, Eq)]
pub struct Sink {
    pub index: u32,
    pub name: String,
}

/// What switching to the next sink asks for: the sink that becomes the
/// default, and the inputs that are moved to it.
#[derive(Clone, Debug, PartialEq, Eq)]
pub struct SinkSwitch {
    pub sink: String,
    pub inputs: Vec<u32>,
}

/// The step, in percent, by which the volume changes: the given one, or five
/// where none is given.
pub open spec fn volume_step(step: Option<u8>) -> nat {
    match step {
        Some(step) => step as nat,
        None => 5,
    }
}

/// The names of sinks, in order.
pub open spec fn sink_names(sinks: Seq<Sink>) -> Seq<Seq<char>> {
    sinks.map_values(|sink: Sink| sink.name@)
}

/// The position of the first of `names` that equals `name`.
pub open spec fn position_of_name(names: Seq<Seq<char>>, name: Seq<char>) -> Option<int>
    decreases names.len(),
{
    if names.len() == 0 {
        None
    } else if names[0] == name {
        Some(0)
    } else {
        match position_of_name(names.drop_first(), name) {
            Some(i) => Some(i + 1),
            None => None,
        }
    }
}

/// The sink that follows the current one, going round from the last to the
/// first. There is none where the current sink is not among the sinks.
pub open spec fn next_sink(names: Seq<Seq<char>>, current: Seq<char>) -> Option<Seq<char>> {
    match position_of_name(names, current) {
        Some(i) => Some(names[(i + 1) % (names.len() as int)]),
        None => None,
    }
}

/// `position_of_name` finds the first equal name, and only fails where
/// there is none.
pub proof fn lemma_position_of_name(names: Seq<Seq<char>>, name: Seq<char>)
    ensures
        match position_of_name(names, name) {
            Some(i) => 0 <= i < names.len() && names[i] == name && forall|j: int|
                0 <= j < i ==> names[j] != name,
            None => forall|j: int| 0 <= j < names.len() ==> names[j] != name,
        },
    decreases names.len(),
{
    if names.len() > 0 && names[0] != name {
        let rest = names.drop_first();
        lemma_position_of_name(rest, name);
        match position_of_name(rest, name) {
            Some(i) => {
                assert forall|j: int| 0 <= j < i + 1 implies names[j] != name by {
                    if j > 0 {
                        assert(rest[j - 1] != name);
                    }
                }
            },
            None => {
                assert forall|j: int| 0 <= j < names.len() implies names[j] != name by {
                    if j > 0 {
                        assert(rest[j - 1] != name);
                    }
                }
            },
        }
    }
}

/// The change that raises the volume by a step: `+` the step `%`.
pub fn volume_up(inc: Option<u8>) -> (change: String)
    ensures
        change@ == "+"@ + digits(volume_step(inc)) + "%"@,
{
    let step: u8 = match inc {
        Some(step) => step,
        None => 5,
    };
    let mut change = String::from_str("+");
    change.append(natural_text(step as u64).as_str());
    change.append("%");
    change
}

/// The change that lowers the volume by a step: `-` the step `%`.
pub fn volume_down(dec: Option<u8>) -> (change: String)
    ensures
        change@ == "-"@ + digits(volume_step(dec)) + "%"@,
{
    let step: u8 = match dec {
        Some(step) => step,
        None => 5,
    };
    let mut change = String::from_str("-");
    change.append(natural_text(step as u64).as_str());
    change.append("%");
    change
}

/// The switch to the sink after the current one: that sink becomes the
/// default and every input is moved to it. After the last sink comes the
/// first. Where the current sink is not among the sinks nothing is switched.
pub fn switch_sink_next(sinks: &Vec<Sink>, current: &str, inputs: Vec<u32>) -> (switch: Option<
    SinkSwitch,
>)
    ensures
        switch is Some <==> next_sink(sink_names(sinks@), current@) is Some,
        switch matches Some(to) ==> next_sink(sink_names(sinks@), current@) == Some(to.sink@)
            && to.inputs@ == inputs@,
{
    let ghost names = sink_names(sinks@);
    let mut i: usize = 0;
    while i < sinks.len()
        invariant
            i <= sinks.len(),
            names == sink_names(sinks@),
            forall|j: int| 0 <= j < i ==> names[j] != current@,
        decreases sinks.len() - i,
    {
        assert(names[i as int] == sinks@[i as int].name@);
        if same_text(sinks[i].name.as_str(), current) {
            let following = if i + 1 == sinks.len() {
                0
            } else {
                i + 1
            };
            proof {
                lemma_position_of_name(names, current@);
                assert(names[following as int] == sinks@[following as int].name@);
                let n = sinks.len() as int;
                assert((i + 1) % n == following) by (nonlinear_arith)
                    requires
                        0 <= i < n,
                        following == if i + 1 == n {
                            0
                        } else {
                            i + 1
                        },
                ;
            }
            return Some(
                SinkSwitch { sink: String::from_str(sinks[following].name.as_str()), inputs },
            );
        }
        i = i + 1;
    }
    proof {
        lemma_position_of_name(names, current@);
    }
    None
}

/// The pattern of a line of the list of sinks; its groups are the index and
/// the name of the sink.
pub open spec fn sink_pattern() -> Seq<char> {
    "^(?P<index>[0-9]+)\\s+(?P<name>.+)\\s+PipeWire\\s+.*"@
}

/// The pattern of the line that names the default sink.
pub open spec fn default_sink_pattern() -> Seq<char> {
    "Default Sink: +(?P<name>.+)"@
}

/// The pattern of a line of the list of inputs; its first group is the index.
pub open spec fn input_pattern() -> Seq<char> {
    "(?P<index>[0-9]+) +.*"@
}

/// What a line of the list of sinks holds: nothing where the pattern does
/// not match it; else the sink, or the index that is no number that fits.
pub open spec fn line_sink(line: Seq<char>) -> Option<Result<(u32, Seq<char>), Seq<char>>> {
    match (group_text(sink_pattern(), line, 1), group_text(sink_pattern(), line, 2)) {
        (Some(index), Some(name)) => match unsigned_value(index) {
            Some(number) => Some(Ok((number, name))),
            None => Some(Err(index)),
        },
        _ => None,
    }
}

/// The sinks that the lines list, in order, or the first index among them
/// that is no number.
pub open spec fn listed_sinks(lines: Seq<Seq<char>>) -> Result<Seq<(u32, Seq<char>)>, Seq<char>>
    decreases lines.len(),
{
    if lines.len() == 0 {
        Ok(Seq::empty())
    } else {
        match listed_sinks(lines.drop_last()) {
            Err(index) => Err(index),
            Ok(sinks) => match line_sink(lines.last()) {
                None => Ok(sinks),
                Some(Ok(sink)) => Ok(sinks.push(sink)),
                Some(Err(index)) => Err(index),
            },
        }
    }
}

/// Index and name of each of `sinks`.
pub open spec fn sink_views(sinks: Seq<Sink>) -> Seq<(u32, Seq<char>)> {
    sinks.map_values(|sink: Sink| (sink.index, sink.name@))
}

/// Whether a result of the library is what the lines list.
pub open spec fn lists(r: Result<Vec<Sink>, UtilError>, lines: Seq<Seq<char>>) -> bool {
    if !pattern_valid(sink_pattern()) {
        r is Err && r->Err_0 is Pattern
    } else {
        match listed_sinks(lines) {
            Ok(sinks) => r is Ok && sink_views(r->Ok_0@) == sinks,
            Err(index) => r is Err && r->Err_0.is_number(index),
        }
    }
}

/// The sinks listed in the lines that the sound server printed. A line
/// that is no line of the list is passed over; an index that is no number
/// is reported.
pub fn list_sinks(lines: &Vec<String>) -> (r: Result<Vec<Sink>, UtilError>)
    ensures
        lists(r, line_views(lines@)),
{
    let compiled = match compile("^(?P<index>[0-9]+)\\s+(?P<name>.+)\\s+PipeWire\\s+.*") {
        Ok(compiled) => compiled,
        Err(e) => {
            return Err(e);
        },
    };
    let ghost all = line_views(lines@);
    let mut sinks: Vec<Sink> = Vec::new();
    let mut i: usize = 0;
    assert(sink_views(sinks@) =~= Seq::<(u32, Seq<char>)>::empty());
    assert(all.take(0) =~= Seq::<Seq<char>>::empty());
    while i < lines.len()
        invariant
            i <= lines.len(),
            all == line_views(lines@),
            pattern_valid(sink_pattern()),
            compiled.source() == sink_pattern(),
            listed_sinks(all.take(i as int)) == Ok::<Seq<(u32, Seq<char>)>, Seq<char>>(
                sink_views(sinks@),
            ),
        decreases lines.len() - i,
    {
        let ghost seen = all.take(i as int + 1);
        proof {
            assert(seen.drop_last() =~= all.take(i as int));
            assert(seen.last() == lines@[i as int]@);
        }
        match captures(&compiled, lines[i].as_str()) {
            Some(groups) => {
                if groups.len() > 2 {
                    proof {
                        let views = group_views(Some(groups))->0;
                        assert(views[1] == crate::tree::text_of(groups@[1]));
                        assert(views[2] == crate::tree::text_of(groups@[2]));
                    }
                    match (&groups[1], &groups[2]) {
                        (Some(index), Some(name)) => match parse_u32(index.as_str()) {
                            Some(number) => {
                                let ghost before = sinks@;
                                let sink = Sink {
                                    index: number,
                                    name: String::from_str(name.as_str()),
                                };
                                sinks.push(sink);
                                assert(sink_views(sinks@) =~= sink_views(before).push(
                                    (number, name@),
                                ));
                            },
                            None => {
                                proof {
                                    lemma_listed_sinks_fail(all, i as int + 1);
                                }
                                return Err(UtilError::Number(String::from_str(index.as_str())));
                            },
                        },
                        _ => {},
                    }
                }
            },
            None => {},
        }
        i = i + 1;
    }
    assert(all.take(lines.len() as int) =~= all);
    Ok(sinks)
}

/// An index that is no number, once met, is what the whole list comes to.
proof fn lemma_listed_sinks_fail(lines: Seq<Seq<char>>, k: int)
    requires
        0 <= k <= lines.len(),
        listed_sinks(lines.take(k)) is Err,
    ensures
        listed_sinks(lines) == listed_sinks(lines.take(k)),
    decreases lines.len() - k,
{
    if k == lines.len() {
        assert(lines.take(k) =~= lines);
    } else {
        assert(lines.drop_last().take(k) =~= lines.take(k));
        lemma_listed_sinks_fail(lines.drop_last(), k);
    }
}

/// The name of the default sink, from what the sound server printed about
/// itself. That none is named is reported.
pub fn default_sink(lines: &Vec<String>) -> (r: Result<String, UtilError>)
    ensures
        pattern_valid(default_sink_pattern()) ==> match first_group(
            line_views(lines@),
            default_sink_pattern(),
            1,
        ) {
            Some(name) => r is Ok && r->Ok_0@ == name,
            None => r is Err && r->Err_0 matches UtilError::NotFound,
        },
        !pattern_valid(default_sink_pattern()) ==> r is Err && r->Err_0 is Pattern,
{
    match first_captured(lines, "Default Sink: +(?P<name>.+)", 1) {
        Ok(Some(name)) => Ok(name),
        Ok(None) => Err(UtilError::NotFound),
        Err(e) => Err(e),
    }
}

/// The indices of the inputs listed in the lines that the sound server
/// printed. A line without an index that fits is passed over.
pub fn list_inputs(lines: &Vec<String>) -> (r: Result<Vec<u32>, UtilError>)
    ensures
        pattern_valid(input_pattern()) ==> r is Ok && r->Ok_0@ == numbers_among(
            line_views(lines@).map_values(|line: Seq<char>| group_text(input_pattern(), line, 1)),
        ),
        !pattern_valid(input_pattern()) ==> r is Err && r->Err_0 is Pattern,
{
    captured_numbers(lines, "(?P<index>[0-9]+) +.*", 1)
}

} // verus!
