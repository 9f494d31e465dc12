//! The arguments of the flip inspection and which attribute updates it
//! shows.
use vstd::prelude::*;
use crate::components::{flip_inspect_name, is_flip_attribute};
use crate::text::{ascii_case_equal, contains_text, eq_ignore_ascii_case, has_infix, parse_usize, parsed_usize, str_eq};

verus! {

/// The arguments of the flip inspection: the replay, the inclusive frame
/// range, and an optional player name to keep.
#[derive(Clone, Debug, PartialEq, Eq)]
pub struct InspectFlipArgs {
    pub replay: String,
    pub start_frame: usize,
    pub end_frame: usize,
    pub player: Option<String>,
}

/// Why the flip inspection's arguments were refused.
#[derive(Clone, Debug, PartialEq, Eq)]
pub enum InspectArgsError {
    /// A flag that takes a value came last.
    MissingValue,
    /// An argument that is not one of the inspection's flags.
    UnknownFlag(String),
    /// A `--start` or `--end` value that is not a `usize`.
    InvalidNumber,
    /// No `--replay` was given.
    MissingReplay,
}

/// Why reading the inspection's arguments stops, with texts as character
/// sequences.
pub enum InspectFailure {
    MissingValue,
    UnknownFlag(Seq<char>),
    InvalidNumber,
    MissingReplay,
}

/// Whether an error value reports a failure.
pub open spec fn inspect_error_is(e: InspectArgsError, f: InspectFailure) -> bool {
    match f {
        InspectFailure::MissingValue => e == InspectArgsError::MissingValue,
        InspectFailure::UnknownFlag(s) => e matches InspectArgsError::UnknownFlag(flag) && flag@ == s,
        InspectFailure::InvalidNumber => e == InspectArgsError::InvalidNumber,
        InspectFailure::MissingReplay => e == InspectArgsError::MissingReplay,
    }
}

/// The inspection's settings read so far: replay, start, end and player.
pub type InspectState = (Option<Seq<char>>, nat, nat, Option<Seq<char>>);

/// The settings before any argument: no replay, every frame, every player.
pub open spec fn inspect_start() -> InspectState {
    (None, 0, usize::MAX as nat, None)
}

/// What reading the arguments from position `i` on does to the settings
/// `st`: each flag takes the next argument as its value, a later flag
/// overrides an earlier one, and the first bad argument stops the reading.
pub open spec fn inspect_scan(args: Seq<Seq<char>>, i: int, st: InspectState) -> Result<InspectState, InspectFailure>
    decreases args.len() - i,
{
    if i < 0 || i >= args.len() {
        Ok(st)
    } else {
        let flag = args[i];
        if flag == "--replay"@ || flag == "--start"@ || flag == "--end"@ || flag == "--player"@ {
            if i + 1 >= args.len() {
                Err(InspectFailure::MissingValue)
            } else {
                let value = args[i + 1];
                if flag == "--replay"@ {
                    inspect_scan(args, i + 2, (Some(value), st.1, st.2, st.3))
                } else if flag == "--player"@ {
                    inspect_scan(args, i + 2, (st.0, st.1, st.2, Some(value)))
                } else {
                    match parsed_usize(value) {
                        None => Err(InspectFailure::InvalidNumber),
                        Some(n) => if flag == "--start"@ {
                            inspect_scan(args, i + 2, (st.0, n as nat, st.2, st.3))
                        } else {
                            inspect_scan(args, i + 2, (st.0, st.1, n as nat, st.3))
                        },
                    }
                }
            }
        } else {
            Err(InspectFailure::UnknownFlag(flag))
        }
    }
}

/// The outcome of reading the inspection's arguments: the settings, or the
/// failure that stops it; without a replay it fails.
pub open spec fn inspect_outcome(args: Seq<Seq<char>>) -> Result<InspectState, InspectFailure> {
    match inspect_scan(args, 0, inspect_start()) {
        Ok(st) => if st.0 is Some {
            Ok(st)
        } else {
            Err(InspectFailure::MissingReplay)
        },
        Err(f) => Err(f),
    }
}

/// The views of a list of strings.
pub open spec fn arg_texts(args: Seq<String>) -> Seq<Seq<char>> {
    args.map_values(|a: String| a@)
}

/// Reads the arguments of the flip inspection: `--replay`, `--start`,
/// `--end` and `--player`, each followed by its value.
pub fn inspect_flip_args(args: &[String]) -> (res: Result<InspectFlipArgs, InspectArgsError>)
    ensures
        match inspect_outcome(arg_texts(args@)) {
            Ok(st) => res matches Ok(a) && Some(a.replay@) == st.0 && a.start_frame as nat == st.1
                && a.end_frame as nat == st.2 && match (a.player, st.3) {
                (Some(p), Some(q)) => p@ == q,
                (None, None) => true,
                _ => false,
            },
            Err(f) => res matches Err(e) && inspect_error_is(e, f),
        },
{
    let ghost texts = arg_texts(args@);
    let mut replay: Option<String> = None;
    let mut start_frame: usize = 0;
    let mut end_frame: usize = usize::MAX;
    let mut player: Option<String> = None;
    let mut idx: usize = 0;
    while idx < args.len()
        invariant
            idx <= args@.len(),
            texts == arg_texts(args@),
            inspect_scan(texts, 0, inspect_start()) == inspect_scan(
                texts,
                idx as int,
                (
                    match replay {
                        Some(r) => Some(r@),
                        None => None,
                    },
                    start_frame as nat,
                    end_frame as nat,
                    match player {
                        Some(p) => Some(p@),
                        None => None,
                    },
                ),
            ),
        decreases args.len() - idx,
    {
        let flag = args[idx].as_str();
        assert(texts[idx as int] == flag@);
        let is_replay = str_eq(flag, "--replay");
        let is_start = str_eq(flag, "--start");
        let is_end = str_eq(flag, "--end");
        let is_player = str_eq(flag, "--player");
        if !(is_replay || is_start || is_end || is_player) {
            return Err(InspectArgsError::UnknownFlag(args[idx].clone()));
        }
        if idx + 1 >= args.len() {
            return Err(InspectArgsError::MissingValue);
        }
        let value = &args[idx + 1];
        assert(texts[idx + 1] == value@);
        if is_replay {
            replay = Some(value.clone());
        } else if is_player {
            player = Some(value.clone());
        } else {
            match parse_usize(value.as_str()) {
                None => {
                    return Err(InspectArgsError::InvalidNumber);
                },
                Some(n) => {
                    if is_start {
                        start_frame = n;
                    } else {
                        end_frame = n;
                    }
                },
            }
        }
        idx = idx + 2;
    }
    match replay {
        Some(r) => Ok(InspectFlipArgs { replay: r, start_frame, end_frame, player }),
        None => Err(InspectArgsError::MissingReplay),
    }
}

/// Attribute kinds whose updates the inspection shows when their name
/// mentions a dodge or a jump.
pub open spec fn is_scalar_kind(kind: Seq<char>) -> bool {
    kind == "int"@ || kind == "float"@ || kind == "byte"@ || kind == "boolean"@ || kind == "location"@
}

/// An attribute update the flip inspection shows: its name or its
/// component's name concerns flips, or it is a scalar whose name mentions a
/// dodge or a jump.
pub open spec fn inspection_shows(name: Seq<char>, component: Seq<char>, kind: Seq<char>) -> bool {
    is_flip_attribute(name) || is_flip_attribute(component) || (is_scalar_kind(kind) && (has_infix(
        name,
        "Dodge"@,
    ) || has_infix(name, "Jump"@)))
}

/// Whether the flip inspection shows an attribute update, by the
/// attribute's name, its actor's component name and its kind.
pub fn flip_inspection_shows(name: &str, component_name: &str, attribute_kind: &str) -> (res: bool)
    ensures
        res == inspection_shows(name@, component_name@, attribute_kind@),
{
    flip_inspect_name(name) || flip_inspect_name(component_name) || ((str_eq(
        attribute_kind,
        "int",
    ) || str_eq(attribute_kind, "float") || str_eq(attribute_kind, "byte") || str_eq(attribute_kind, "boolean")
        || str_eq(attribute_kind, "location")) && (contains_text(name, "Dodge") || contains_text(name, "Jump")))
}

/// An attribute update that the flip inspection prints: its frame lies in
/// the inclusive window, the update is one it shows, and, when a player is
/// asked for, its player's name equals that one ignoring ASCII case.
pub open spec fn inspection_prints(
    args: InspectFlipArgs,
    frame: usize,
    name: Seq<char>,
    component: Seq<char>,
    kind: Seq<char>,
    player: Seq<char>,
) -> bool {
    &&& args.start_frame <= frame <= args.end_frame
    &&& inspection_shows(name, component, kind)
    &&& match args.player {
        Some(p) => ascii_case_equal(player, p@),
        None => true,
    }
}

/// Whether the flip inspection prints an attribute update of frame
/// `frame`, by its name, its actor's component name, its kind and its
/// player's name.
pub fn flip_inspection_prints(
    args: &InspectFlipArgs,
    frame: usize,
    name: &str,
    component_name: &str,
    attribute_kind: &str,
    player_name: &str,
) -> (res: bool)
    ensures
        res == inspection_prints(*args, frame, name@, component_name@, attribute_kind@, player_name@),
{
    if frame < args.start_frame || frame > args.end_frame {
        return false;
    }
    if !flip_inspection_shows(name, component_name, attribute_kind) {
        return false;
    }
    match &args.player {
        Some(p) => eq_ignore_ascii_case(player_name, p.as_str()),
        None => true,
    }
}

} // verus!
