//! Windows privilege: what the process token says, the command line of an
//! elevated relaunch, and what becomes of it.
//!
//! Windows grants elevation only at process creation, so elevating means
//! relaunching.

use vstd::prelude::*;
use vstd::string::StringExecFns;
use crate::native_path::{NameView, NativeName, NativePath, PathView};
use crate::platform::IoFailure;
use crate::privilege::{
    ElevatedRelaunch, ElevationPolicy, ElevationRefusal, PrivilegeLevel, PrivilegeObservation,
    PrivilegeOrigin, PrivilegeProvider, RefusalView,
};
use crate::text::{concat, decimal, decimal_text};
use crate::windows_path::BACKSLASH;
use crate::sequence::{copy_all, views};

verus! {

pub const QUOTE: u16 = 0x22;

pub const SPACE: u16 = 0x20;

pub const TAB: u16 = 0x09;

/// `ERROR_CANCELLED`: the user declined the consent dialog.
pub const ERROR_CANCELLED: i32 = 1223;

/// `WAIT_FAILED`.
pub const WAIT_FAILED: u32 = 0xffff_ffff;

/// Size of the `TOKEN_ELEVATION` structure.
pub const TOKEN_ELEVATION_BYTES: u32 = 4;

// ---------------------------------------------------------------------------
// Detection
// ---------------------------------------------------------------------------

/// What was read of the process token.
#[derive(Debug, Clone, Copy, PartialEq, Eq, Structural)]
pub enum TokenReading {
    /// The token could not be opened.
    Unreadable,
    /// The token was queried: whether the call succeeded, how many bytes it
    /// wrote, and the field it wrote.
    Queried { succeeded: bool, returned: u32, elevated_field: u32 },
}

/// The level that a token reading shows. A failed or short query is no answer.
pub open spec fn token_level(reading: TokenReading) -> PrivilegeLevel {
    match reading {
        TokenReading::Unreadable => PrivilegeLevel::Unknown,
        TokenReading::Queried { succeeded, returned, elevated_field } => if !succeeded || returned
            != TOKEN_ELEVATION_BYTES {
            PrivilegeLevel::Unknown
        } else if elevated_field == 0 {
            PrivilegeLevel::NotElevated
        } else {
            PrivilegeLevel::Elevated
        },
    }
}

/// Interprets a token reading. Elevation that is found can only have been inherited.
pub fn observe_token(reading: TokenReading) -> (r: PrivilegeObservation)
    ensures
        r.level == token_level(reading),
        r.origin == (if r.level is Elevated {
            PrivilegeOrigin::InheritedFromSession
        } else {
            PrivilegeOrigin::Unprivileged
        }),
{
    match reading {
        TokenReading::Unreadable => PrivilegeObservation::unknown(),
        TokenReading::Queried { succeeded, returned, elevated_field } => {
            if !succeeded || returned != TOKEN_ELEVATION_BYTES {
                return PrivilegeObservation::unknown();
            }
            if elevated_field == 0 {
                PrivilegeObservation::not_elevated()
            } else {
                PrivilegeObservation::inherited()
            }
        },
    }
}

/// Windows implementation of [`PrivilegeProvider`], as it answers without a process token.
#[derive(Debug, Clone, Copy)]
pub struct WindowsPrivilegeProvider;

impl Default for WindowsPrivilegeProvider {
    fn default() -> (r: WindowsPrivilegeProvider)
        ensures
            r == WindowsPrivilegeProvider,
    {
        WindowsPrivilegeProvider
    }
}

impl WindowsPrivilegeProvider {
    /// Creates the provider.
    pub fn new() -> (r: WindowsPrivilegeProvider)
        ensures
            r == WindowsPrivilegeProvider,
    {
        WindowsPrivilegeProvider
    }
}

/// How Windows answers an elevation request: never with privilege.
pub open spec fn windows_request_refusal(policy: ElevationPolicy) -> RefusalView {
    if policy == ElevationPolicy::DetectOnly {
        RefusalView::PolicyForbidsRequest
    } else {
        RefusalView::Unavailable(
            "elevation on Windows requires re-launching the process; it cannot be acquired by a process that is already running"@,
        )
    }
}

impl PrivilegeProvider for WindowsPrivilegeProvider {
    fn provider_name(&self) -> (r: &'static str)
        ensures
            r@ == "windows-process-token"@,
    {
        "windows-process-token"
    }

    /// Claims no knowledge of a token that this host does not have.
    fn observe(&self) -> (r: PrivilegeObservation)
        ensures
            r.level == PrivilegeLevel::Unknown,
            r.origin == PrivilegeOrigin::Unprivileged,
    {
        observe_token(TokenReading::Unreadable)
    }

    fn request_elevation(&self, policy: ElevationPolicy) -> (r: Result<
        PrivilegeObservation,
        ElevationRefusal,
    >)
        ensures
            r matches Err(refusal) && refusal@ == windows_request_refusal(policy),
    {
        if policy == ElevationPolicy::DetectOnly {
            return Err(ElevationRefusal::PolicyForbidsRequest);
        }
        Err(
            ElevationRefusal::Unavailable(
                String::from_str(
                    "elevation on Windows requires re-launching the process; it cannot be acquired by a process that is already running",
                ),
            ),
        )
    }
}

// ---------------------------------------------------------------------------
// The command line
// ---------------------------------------------------------------------------

/// `count` backslashes.
pub open spec fn backslashes(count: nat) -> Seq<u16> {
    Seq::new(count, |i: int| BACKSLASH)
}

/// The rest of an argument from `index` on, escaped, with `run` backslashes
/// written just before it. A run in front of a quote or at the end is doubled,
/// and the quote gets a backslash of its own.
pub open spec fn escaped_from(argument: Seq<u16>, index: int, run: nat) -> Seq<u16>
    decreases argument.len() - index,
{
    if index >= argument.len() {
        backslashes(run)
    } else if argument[index] == BACKSLASH {
        seq![BACKSLASH] + escaped_from(argument, index + 1, run + 1)
    } else if argument[index] == QUOTE {
        backslashes(run + 1) + (seq![QUOTE] + escaped_from(argument, index + 1, 0))
    } else {
        seq![argument[index]] + escaped_from(argument, index + 1, 0)
    }
}

/// An argument in quotes.
pub open spec fn quoted_argument(argument: Seq<u16>) -> Seq<u16> {
    seq![QUOTE] + escaped_from(argument, 0, 0) + seq![QUOTE]
}

/// The command line of a list of arguments, one space between them.
pub open spec fn command_line(arguments: Seq<Seq<u16>>) -> Seq<u16>
    decreases arguments.len(),
{
    if arguments.len() == 0 {
        seq![]
    } else if arguments.len() == 1 {
        quoted_argument(arguments[0])
    } else {
        command_line(arguments.drop_last()) + seq![SPACE] + quoted_argument(arguments.last())
    }
}

fn push_backslashes(line: &mut Vec<u16>, count: usize)
    ensures
        final(line)@ == old(line)@ + backslashes(count as nat),
{
    let ghost start = line@;
    let mut done: usize = 0;
    assert(start + backslashes(0) =~= start);
    while done < count
        invariant
            done <= count,
            line@ == start + backslashes(done as nat),
        decreases count - done,
    {
        line.push(BACKSLASH);
        assert(line@ =~= start + backslashes((done + 1) as nat));
        done = done + 1;
    }
}

fn push_quoted(line: &mut Vec<u16>, argument: &[u16])
    ensures
        final(line)@ == old(line)@ + quoted_argument(argument@),
{
    let ghost start = line@;
    line.push(QUOTE);
    let ghost goal = start + seq![QUOTE] + escaped_from(argument@, 0, 0);
    let mut run: usize = 0;
    let mut index: usize = 0;
    let length: usize = argument.len();
    assert(line@ + escaped_from(argument@, 0, 0) =~= goal);
    while index < length
        invariant
            length == argument@.len(),
            index <= length,
            run <= index,
            line@ + escaped_from(argument@, index as int, run as nat) == goal,
        decreases length - index,
    {
        let ghost before = line@;
        let unit: u16 = argument[index];
        if unit == BACKSLASH {
            line.push(unit);
            proof {
                let rest = escaped_from(argument@, index + 1, (run + 1) as nat);
                assert(before + (seq![BACKSLASH] + rest) =~= line@ + rest);
            }
            run = run + 1;
        } else if unit == QUOTE {
            push_backslashes(line, run + 1);
            line.push(QUOTE);
            proof {
                let rest = escaped_from(argument@, index + 1, 0);
                assert(before + (backslashes((run + 1) as nat) + (seq![QUOTE] + rest)) =~= line@
                    + rest);
            }
            run = 0;
        } else {
            line.push(unit);
            proof {
                let rest = escaped_from(argument@, index + 1, 0);
                assert(before + (seq![unit] + rest) =~= line@ + rest);
            }
            run = 0;
        }
        index = index + 1;
    }
    push_backslashes(line, run);
    line.push(QUOTE);
    assert(line@ =~= goal + seq![QUOTE]);
    assert(goal + seq![QUOTE] =~= start + quoted_argument(argument@));
}

/// Builds a parameter string that the child will parse back into the same arguments.
///
/// Each argument is quoted per the standard Windows convention: embedded quotes and the
/// backslashes preceding them are escaped, and every argument is wrapped so spaces cannot
/// split it. Works in UTF-16 throughout so a path that is not Unicode survives.
pub fn join_arguments(arguments: &[Vec<u16>]) -> (r: Vec<u16>)
    ensures
        r@ == command_line(views(arguments@)),
{
    let mut line: Vec<u16> = Vec::new();
    let ghost all = views(arguments@);
    let mut index: usize = 0;
    assert(all.take(0) =~= seq![]);
    while index < arguments.len()
        invariant
            all == views(arguments@),
            index <= arguments@.len(),
            line@ == command_line(all.take(index as int)),
        decreases arguments@.len() - index,
    {
        let ghost before = line@;
        proof {
            assert(all.take(index + 1).drop_last() =~= all.take(index as int));
            assert(all.take(index + 1).last() == arguments@[index as int]@);
        }
        if index > 0 {
            line.push(SPACE);
        }
        push_quoted(&mut line, arguments[index].as_slice());
        proof {
            let last = quoted_argument(arguments@[index as int]@);
            if index > 0 {
                assert(line@ =~= before + seq![SPACE] + last);
            } else {
                assert(all.take(1)[0] == arguments@[0]@);
                assert(line@ =~= last);
            }
        }
        index = index + 1;
    }
    assert(all.take(index as int) =~= all);
    line
}

/// The arguments that the standard Windows convention reads from a command
/// line: backslashes are literal unless a quote follows their run, where each
/// pair gives one and an odd one makes the quote literal; other quotes open and
/// close a stretch in which blanks do not separate arguments.
pub open spec fn parsed_arguments(
    line: Seq<u16>,
    in_quotes: bool,
    started: bool,
    run: nat,
    current: Seq<u16>,
) -> Seq<Seq<u16>>
    decreases line.len(),
{
    if line.len() == 0 {
        if started {
            seq![current + backslashes(run)]
        } else {
            seq![]
        }
    } else {
        let rest = line.drop_first();
        let unit = line[0];
        if unit == BACKSLASH {
            parsed_arguments(rest, in_quotes, true, run + 1, current)
        } else if unit == QUOTE && run % 2 == 0 {
            parsed_arguments(rest, !in_quotes, true, 0, current + backslashes(run / 2))
        } else if unit == QUOTE {
            parsed_arguments(
                rest,
                in_quotes,
                true,
                0,
                (current + backslashes(run / 2)).push(QUOTE),
            )
        } else if !in_quotes && (unit == SPACE || unit == TAB) {
            if started {
                seq![current + backslashes(run)] + parsed_arguments(rest, false, false, 0, seq![])
            } else {
                parsed_arguments(rest, false, false, 0, seq![])
            }
        } else {
            parsed_arguments(rest, in_quotes, true, 0, (current + backslashes(run)).push(unit))
        }
    }
}

/// The arguments of a whole command line.
pub open spec fn arguments_of_line(line: Seq<u16>) -> Seq<Seq<u16>> {
    parsed_arguments(line, false, false, 0, seq![])
}

proof fn lemma_parse_run(
    count: nat,
    tail: Seq<u16>,
    in_quotes: bool,
    run: nat,
    current: Seq<u16>,
)
    ensures
        parsed_arguments(backslashes(count) + tail, in_quotes, true, run, current)
            == parsed_arguments(tail, in_quotes, true, run + count, current),
    decreases count,
{
    if count == 0 {
        assert(backslashes(0) + tail =~= tail);
    } else {
        let line = backslashes(count) + tail;
        assert(line[0] == BACKSLASH);
        assert(line.drop_first() =~= backslashes((count - 1) as nat) + tail);
        lemma_parse_run((count - 1) as nat, tail, in_quotes, run + 1, current);
    }
}

proof fn lemma_parse_escaped(
    argument: Seq<u16>,
    index: int,
    run: nat,
    current: Seq<u16>,
    tail: Seq<u16>,
)
    requires
        0 <= index <= argument.len(),
    ensures
        parsed_arguments(
            escaped_from(argument, index, run) + (seq![QUOTE] + tail),
            true,
            true,
            run,
            current,
        ) == parsed_arguments(
            tail,
            false,
            true,
            0,
            current + backslashes(run) + argument.subrange(index, argument.len() as int),
        ),
    decreases argument.len() - index,
{
    let end = seq![QUOTE] + tail;
    let whole = escaped_from(argument, index, run) + end;
    let remaining = argument.subrange(index, argument.len() as int);
    if index >= argument.len() {
        lemma_parse_run(run, end, true, run, current);
        assert(end.drop_first() =~= tail);
        assert((run + run) % 2 == 0 && (run + run) / 2 == run);
        assert(current + backslashes(run) + remaining =~= current + backslashes(run));
    } else {
        let unit = argument[index];
        let after = argument.subrange(index + 1, argument.len() as int);
        assert(remaining =~= seq![unit] + after);
        if unit == BACKSLASH {
            let rest = escaped_from(argument, index + 1, run + 1) + end;
            assert(whole =~= seq![BACKSLASH] + rest);
            assert(whole.drop_first() =~= rest);
            lemma_parse_escaped(argument, index + 1, run + 1, current, tail);
            assert(current + backslashes(run + 1) + after =~= current + backslashes(run)
                + remaining);
        } else if unit == QUOTE {
            let rest = escaped_from(argument, index + 1, 0) + end;
            let middle = seq![QUOTE] + rest;
            assert(whole =~= backslashes(run + 1) + middle);
            lemma_parse_run(run + 1, middle, true, run, current);
            assert(middle.drop_first() =~= rest);
            assert((run + (run + 1)) % 2 == 1 && (run + (run + 1)) / 2 == run);
            let grown = (current + backslashes(run)).push(QUOTE);
            lemma_parse_escaped(argument, index + 1, 0, grown, tail);
            assert(grown + backslashes(0) + after =~= current + backslashes(run) + remaining);
        } else {
            let rest = escaped_from(argument, index + 1, 0) + end;
            assert(whole =~= seq![unit] + rest);
            assert(whole.drop_first() =~= rest);
            let grown = (current + backslashes(run)).push(unit);
            lemma_parse_escaped(argument, index + 1, 0, grown, tail);
            assert(grown + backslashes(0) + after =~= current + backslashes(run) + remaining);
        }
    }
}

proof fn lemma_parse_quoted(argument: Seq<u16>, tail: Seq<u16>)
    ensures
        parsed_arguments(quoted_argument(argument) + tail, false, false, 0, seq![])
            == parsed_arguments(tail, false, true, 0, argument),
{
    let line = quoted_argument(argument) + tail;
    let rest = escaped_from(argument, 0, 0) + (seq![QUOTE] + tail);
    assert(line =~= seq![QUOTE] + rest);
    assert(line.drop_first() =~= rest);
    let empty = Seq::<u16>::empty();
    assert(empty + backslashes(0) =~= empty);
    lemma_parse_escaped(argument, 0, 0, empty, tail);
    assert(empty + backslashes(0) + argument.subrange(0, argument.len() as int) =~= argument);
}

proof fn lemma_parse_line(arguments: Seq<Seq<u16>>, tail: Seq<u16>)
    requires
        arguments.len() > 0,
        tail.len() == 0 || tail[0] == SPACE,
    ensures
        arguments_of_line(command_line(arguments) + tail) == arguments.drop_last()
            + parsed_arguments(tail, false, true, 0, arguments.last()),
    decreases arguments.len(),
{
    if arguments.len() == 1 {
        lemma_parse_quoted(arguments[0], tail);
        assert(arguments.drop_last() + parsed_arguments(tail, false, true, 0, arguments.last())
            =~= parsed_arguments(tail, false, true, 0, arguments.last()));
    } else {
        let shorter = arguments.drop_last();
        let more = seq![SPACE] + (quoted_argument(arguments.last()) + tail);
        assert(command_line(arguments) + tail =~= command_line(shorter) + more);
        lemma_parse_line(shorter, more);
        assert(more.drop_first() =~= quoted_argument(arguments.last()) + tail);
        lemma_parse_quoted(arguments.last(), tail);
        assert(shorter.last() + backslashes(0) =~= shorter.last());
        let last = parsed_arguments(tail, false, true, 0, arguments.last());
        assert(shorter.drop_last() + (seq![shorter.last()] + last) =~= arguments.drop_last() + last);
    }
}

/// The child reads back exactly the arguments that were joined, whatever
/// blanks, quotes and backslashes they hold.
pub proof fn joined_arguments_parse_back(arguments: Seq<Seq<u16>>)
    ensures
        arguments_of_line(command_line(arguments)) == arguments,
{
    if arguments.len() == 0 {
        assert(arguments =~= seq![]);
    } else {
        let empty = Seq::<u16>::empty();
        lemma_parse_line(arguments, empty);
        assert(command_line(arguments) + empty =~= command_line(arguments));
        assert(arguments.last() + backslashes(0) =~= arguments.last());
        assert(arguments.drop_last() + seq![arguments.last()] =~= arguments);
    }
}

// ---------------------------------------------------------------------------
// The relaunch
// ---------------------------------------------------------------------------

/// The strings that start an elevated copy, each ended by a NUL.
#[derive(Debug)]
pub struct RelaunchCommand {
    pub program: Vec<u16>,
    pub parameters: Vec<u16>,
}

/// The units of a list of Windows arguments; `None` when one is not of Windows.
pub open spec fn argument_units(arguments: Seq<NativeName>) -> Option<Seq<Seq<u16>>>
    decreases arguments.len(),
{
    if arguments.len() == 0 {
        Some(seq![])
    } else {
        match (argument_units(arguments.drop_last()), arguments.last()@) {
            (Some(before), NameView::WindowsUtf16(units)) => Some(before.push(units)),
            _ => None,
        }
    }
}

fn collect_units(arguments: &Vec<NativeName>) -> (r: Option<Vec<Vec<u16>>>)
    ensures
        match r {
            Some(units) => argument_units(arguments@) == Some(views(units@)),
            None => argument_units(arguments@) is None,
        },
{
    let mut out: Vec<Vec<u16>> = Vec::new();
    let mut index: usize = 0;
    let ghost all = arguments@;
    assert(all.take(0) =~= seq![]);
    assert(views(out@) =~= seq![]);
    while index < arguments.len()
        invariant
            all == arguments@,
            index <= all.len(),
            argument_units(all.take(index as int)) == Some(views(out@)),
        decreases all.len() - index,
    {
        let ghost before = views(out@);
        proof {
            assert(all.take(index + 1).drop_last() =~= all.take(index as int));
            assert(all.take(index + 1).last() == all[index as int]);
        }
        match &arguments[index] {
            NativeName::WindowsUtf16(units) => {
                let copy = copy_all(units.as_slice());
                out.push(copy);
                assert(views(out@) =~= before.push(units@));
            },
            NativeName::UnixBytes(_) => {
                proof {
                    lemma_units_prefix(all, index + 1);
                }
                return None;
            },
        }
        index = index + 1;
    }
    assert(all.take(index as int) =~= all);
    Some(out)
}

proof fn lemma_units_prefix(arguments: Seq<NativeName>, count: int)
    requires
        0 <= count <= arguments.len(),
        argument_units(arguments.take(count)) is None,
    ensures
        argument_units(arguments) is None,
    decreases arguments.len() - count,
{
    if count == arguments.len() {
        assert(arguments.take(count) =~= arguments);
    } else {
        assert(arguments.take(count + 1).drop_last() =~= arguments.take(count));
        lemma_units_prefix(arguments, count + 1);
    }
}

/// Prepares an elevated relaunch.
///
/// An absolute path is required because the shell resolves a bare name against its own search
/// order, which could start a different image than the one now running. A path or an argument
/// of another platform cannot be started here at all.
pub fn prepare_relaunch(request: &ElevatedRelaunch) -> (r: Result<RelaunchCommand, ElevationRefusal>)
    ensures
        match r {
            Ok(command) => {
                &&& request.program@.absolute()
                &&& request.program@ matches PathView::WindowsUtf16(program) && command.program@
                    == program.push(0)
                &&& argument_units(request.arguments@) matches Some(arguments)
                    && command.parameters@ == command_line(arguments).push(0)
            },
            Err(refusal) => if !request.program@.absolute() {
                refusal@ == RefusalView::Failed(
                    "refusing to relaunch elevated without an absolute program path"@,
                )
            } else {
                &&& request.program@ is UnixBytes || argument_units(request.arguments@) is None
                &&& refusal@ == RefusalView::Failed(
                    "refusing to relaunch elevated with names of another platform"@,
                )
            },
        },
{
    if !request.program.is_absolute() {
        return Err(
            ElevationRefusal::Failed(
                String::from_str("refusing to relaunch elevated without an absolute program path"),
            ),
        );
    }
    match (&request.program, collect_units(&request.arguments)) {
        (NativePath::WindowsUtf16(units), Some(arguments)) => {
            let mut program = units.clone();
            assert(program@ =~= units@);
            program.push(0);
            let mut parameters = join_arguments(arguments.as_slice());
            parameters.push(0);
            Ok(RelaunchCommand { program, parameters })
        },
        _ => Err(
            ElevationRefusal::Failed(
                String::from_str("refusing to relaunch elevated with names of another platform"),
            ),
        ),
    }
}

/// How far an elevated relaunch came.
#[derive(Debug)]
pub enum RelaunchObservation {
    /// The shell could not start the child.
    LaunchFailed(IoFailure),
    /// The child started, but its handle was not returned.
    NoHandle,
    /// Waiting for the child ended with another result than its exit.
    WaitEnded(u32),
    /// The child exited, but its exit code could not be read.
    ExitCodeUnreadable(IoFailure),
    /// The child exited with this code.
    Exited(u32),
}

/// What a relaunch comes to: the exit code of a child that ran to completion,
/// or a refusal. Declining the consent dialog is the user's answer, not a failure.
pub open spec fn relaunch_result(observation: RelaunchObservation) -> Result<u8, RefusalView> {
    match observation {
        RelaunchObservation::LaunchFailed(error) => if error.raw_os_error == Some(
            ERROR_CANCELLED,
        ) {
            Err(RefusalView::Declined)
        } else {
            Err(RefusalView::Failed("ShellExecuteExW failed: "@ + error.detail@))
        },
        RelaunchObservation::NoHandle => Err(
            RefusalView::Failed("the elevated process started without returning a handle"@),
        ),
        RelaunchObservation::WaitEnded(result) => Err(
            RefusalView::Failed(
                "waiting for the elevated process failed (result "@ + decimal(result as nat)
                    + ", WAIT_FAILED=4294967295)"@,
            ),
        ),
        RelaunchObservation::ExitCodeUnreadable(error) => Err(
            RefusalView::Failed(
                "could not read the elevated process exit code: "@ + error.detail@,
            ),
        ),
        RelaunchObservation::Exited(code) => if code <= 255 {
            Ok(code as u8)
        } else {
            Err(
                RefusalView::Failed(
                    "the elevated process returned exit code "@ + decimal(code as nat)
                        + ", which does not fit a process exit byte"@,
                ),
            )
        },
    }
}

/// Decides what a relaunch comes to. Nothing but a completed child with an
/// exit code that fits a byte is a success.
pub fn conclude_relaunch(observation: RelaunchObservation) -> (r: Result<u8, ElevationRefusal>)
    ensures
        (match r {
            Ok(code) => Ok(code),
            Err(refusal) => Err(refusal@),
        }) == relaunch_result(observation),
{
    match observation {
        RelaunchObservation::LaunchFailed(error) => if error.raw_os_error == Some(
            ERROR_CANCELLED,
        ) {
            Err(ElevationRefusal::Declined)
        } else {
            Err(
                ElevationRefusal::Failed(
                    concat("ShellExecuteExW failed: ", error.detail.as_str()),
                ),
            )
        },
        RelaunchObservation::NoHandle => Err(
            ElevationRefusal::Failed(
                String::from_str("the elevated process started without returning a handle"),
            ),
        ),
        RelaunchObservation::WaitEnded(result) => {
            let head = concat(
                "waiting for the elevated process failed (result ",
                decimal_text(result as u128).as_str(),
            );
            Err(
                ElevationRefusal::Failed(concat(head.as_str(), ", WAIT_FAILED=4294967295)")),
            )
        },
        RelaunchObservation::ExitCodeUnreadable(error) => Err(
            ElevationRefusal::Failed(
                concat(
                    "could not read the elevated process exit code: ",
                    error.detail.as_str(),
                ),
            ),
        ),
        RelaunchObservation::Exited(code) => if code <= 255 {
            Ok(code as u8)
        } else {
            let head = concat(
                "the elevated process returned exit code ",
                decimal_text(code as u128).as_str(),
            );
            Err(
                ElevationRefusal::Failed(
                    concat(head.as_str(), ", which does not fit a process exit byte"),
                ),
            )
        },
    }
}

/// A relaunch succeeds only with the exit code of a child that completed, never truncated.
pub proof fn only_a_completed_child_succeeds(observation: RelaunchObservation)
    ensures
        relaunch_result(observation) matches Ok(code) ==> observation
            == RelaunchObservation::Exited(code as u32),
{
}

/// A token says something only when it was read whole: then a field other than zero is
/// elevation, and zero is none. Everything else is unknown.
pub proof fn tokens_say_only_what_was_read(reading: TokenReading)
    ensures
        token_level(reading) is Elevated <==> (reading matches TokenReading::Queried {
            succeeded,
            returned,
            elevated_field,
        } && succeeded && returned == 4 && elevated_field != 0),
        token_level(reading) is NotElevated <==> (reading matches TokenReading::Queried {
            succeeded,
            returned,
            elevated_field,
        } && succeeded && returned == 4 && elevated_field == 0),
{
}

/// A child that exits with a code of one byte is a success with that code; nothing else is.
/// Only the user's own refusal counts as declined.
pub proof fn relaunches_come_to_what_the_child_did(observation: RelaunchObservation)
    ensures
        observation matches RelaunchObservation::Exited(code) ==> (if code <= 255 {
            relaunch_result(observation) matches Ok(exit_code) && exit_code == code
        } else {
            relaunch_result(observation) is Err
        }),
        !(observation is Exited) ==> relaunch_result(observation) is Err,
        (relaunch_result(observation) matches Err(refusal) && refusal is Declined) <==> (
        observation matches RelaunchObservation::LaunchFailed(error) && error.raw_os_error == Some(
            1223i32,
        )),
        relaunch_result(observation) matches Err(refusal) ==> refusal is Declined || refusal
            is Failed,
{
}

/// Arguments are handed over only when all of them are of this platform, and then unit for unit
/// and in order.
pub proof fn arguments_are_handed_over_as_they_are(arguments: Seq<NativeName>)
    ensures
        match argument_units(arguments) {
            Some(units) => units.len() == arguments.len() && forall|i: int|
                0 <= i < arguments.len() ==> (#[trigger] arguments[i])@ == NameView::WindowsUtf16(
                    units[i],
                ),
            None => exists|i: int|
                0 <= i < arguments.len() && (#[trigger] arguments[i])@ is UnixBytes,
        },
    decreases arguments.len(),
{
    if arguments.len() > 0 {
        let shorter = arguments.drop_last();
        arguments_are_handed_over_as_they_are(shorter);
        let last = arguments[arguments.len() - 1];
        match argument_units(shorter) {
            Some(before) => {
                if let Some(units) = argument_units(arguments) {
                    assert forall|i: int| 0 <= i < arguments.len() implies (
                    #[trigger] arguments[i])@ == NameView::WindowsUtf16(units[i]) by {
                        if i < shorter.len() {
                            assert(arguments[i] == shorter[i]);
                        }
                    }
                } else {
                    assert(last@ is UnixBytes);
                }
            },
            None => {
                let i = choose|i: int|
                    0 <= i < shorter.len() && (#[trigger] shorter[i])@ is UnixBytes;
                assert(arguments[i]@ is UnixBytes);
            },
        }
    }
}

} // verus!
