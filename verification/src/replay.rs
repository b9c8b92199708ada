//! Replays: their arguments, the configuration that they run with, and the run itself.
use vstd::prelude::*;

use crate::engine::{reports, run, EngineError, EngineReport, MarketDataEngine};
use crate::json::{entry_views, in_key_order};
use crate::market_data::event::EventView;
use crate::parsing::{lemma_split_once_parts, split_once, split_text_once};
use crate::recorder::manifest::{inserted, Configuration, ManifestView};
use crate::recorder::validated::{
    lemma_validated_sequences, replay_views, segments_valid, ReplayView, ValidatedReplayEvent,
};
use crate::text::{lemma_text_less_irreflexive, same_text, text_less};

verus! {

/// What a replay is asked to do.
#[derive(Debug, Eq, PartialEq)]
pub struct ReplayArguments {
    pub capture_directory: String,
    pub allow_incomplete: bool,
    pub configuration_overrides: Configuration,
}

/// The model of arguments that were read so far.
pub struct ArgumentsView {
    pub capture_directory: Option<Seq<char>>,
    pub allow_incomplete: bool,
    pub configuration_overrides: Seq<(Seq<char>, Seq<char>)>,
}

impl ArgumentsView {
    /// Before the first argument.
    pub open spec fn none() -> ArgumentsView {
        ArgumentsView {
            capture_directory: None,
            allow_incomplete: false,
            configuration_overrides: Seq::empty(),
        }
    }
}

/// The value under a key.
pub open spec fn value_under(entries: Seq<(Seq<char>, Seq<char>)>, key: Seq<char>) -> Option<
    Seq<char>,
>
    decreases entries.len(),
{
    if entries.len() == 0 {
        None
    } else if entries[0].0 == key {
        Some(entries[0].1)
    } else {
        value_under(entries.skip(1), key)
    }
}

/// Reading the arguments that are left.
pub open spec fn arguments_reading(arguments: Seq<Seq<char>>, so_far: ArgumentsView) -> Result<
    ArgumentsView,
    Seq<char>,
>
    decreases arguments.len(),
{
    if arguments.len() == 0 {
        Ok(so_far)
    } else if arguments[0] == "--allow-incomplete"@ {
        arguments_reading(arguments.skip(1), ArgumentsView { allow_incomplete: true, ..so_far })
    } else if arguments[0] == "--config-override"@ {
        if arguments.len() == 1 {
            Err("--config-override requires KEY=VALUE"@)
        } else {
            match split_once(arguments[1], '=') {
                None => Err("--config-override requires KEY=VALUE"@),
                Some((key, value)) => if key.len() == 0 {
                    Err("configuration override key cannot be empty"@)
                } else if value_under(so_far.configuration_overrides, key) is Some {
                    Err("duplicate configuration override: "@ + key)
                } else {
                    arguments_reading(
                        arguments.skip(2),
                        ArgumentsView {
                            configuration_overrides: inserted(
                                so_far.configuration_overrides,
                                key,
                                value,
                            ),
                            ..so_far
                        },
                    )
                },
            }
        }
    } else if arguments[0].len() > 0 && arguments[0][0] == '-' {
        Err("unknown option: "@ + arguments[0])
    } else if so_far.capture_directory is None {
        arguments_reading(
            arguments.skip(1),
            ArgumentsView { capture_directory: Some(arguments[0]), ..so_far },
        )
    } else {
        Err("unexpected argument: "@ + arguments[0])
    }
}

/// The arguments of a replay, complete.
pub open spec fn replay_arguments(arguments: Seq<Seq<char>>) -> Result<ArgumentsView, Seq<char>> {
    match arguments_reading(arguments, ArgumentsView::none()) {
        Err(error) => Err(error),
        Ok(read) => if read.capture_directory is None {
            Err(
                "usage: replay <capture-directory> [--allow-incomplete] [--config-override KEY=VALUE]"@,
            )
        } else {
            Ok(read)
        },
    }
}

impl View for ReplayArguments {
    type V = ArgumentsView;

    open spec fn view(&self) -> ArgumentsView {
        ArgumentsView {
            capture_directory: Some(self.capture_directory@),
            allow_incomplete: self.allow_incomplete,
            configuration_overrides: self.configuration_overrides@,
        }
    }
}

/// The models of arguments.
pub open spec fn argument_views(arguments: Seq<String>) -> Seq<Seq<char>> {
    arguments.map_values(|argument: String| argument@)
}

fn prefixed(prefix: &str, text: &str) -> (whole: String)
    ensures
        whole@ == prefix@ + text@,
{
    let mut whole: String = prefix.to_owned();
    whole.append(text);
    whole
}

/// The value of a setting.
pub fn setting<'a>(configuration: &'a Configuration, key: &str) -> (value: Option<&'a str>)
    ensures
        value_under(configuration@, key@) == (match value {
            Some(text) => Some(text@),
            None => None,
        }),
{
    let entries: &'a [(String, String)] = configuration.entries();
    let ghost all = configuration@;
    let mut i: usize = 0;
    assert(all.skip(0) =~= all);
    while i < entries.len()
        invariant
            i <= entries.len(),
            entry_views(entries@) == all,
            all == configuration@,
            value_under(all, key@) == value_under(all.skip(i as int), key@),
        decreases entries.len() - i,
    {
        proof {
            assert(all[i as int] == (entries@[i as int].0@, entries@[i as int].1@));
            assert(all.skip(i as int)[0] == all[i as int]);
            assert(all.skip(i as int).skip(1) =~= all.skip(i + 1));
        }
        if same_text(entries[i].0.as_str(), key) {
            return Some(entries[i].1.as_str());
        }
        i = i + 1;
    }
    None
}

impl ReplayArguments {
    /// Reads the arguments of a replay.
    pub fn parse(arguments: Vec<String>) -> (result: Result<Self, String>)
        ensures
            replay_arguments(argument_views(arguments@)) == (match result {
                Ok(read) => Ok::<ArgumentsView, Seq<char>>(read@),
                Err(error) => Err(error@),
            }),
    {
        let ghost all = argument_views(arguments@);
        let mut capture_directory: Option<String> = None;
        let mut allow_incomplete: bool = false;
        let mut overrides: Configuration = Configuration::new();
        let ghost mut so_far = ArgumentsView::none();
        let mut i: usize = 0;
        assert(all.skip(0) =~= all);
        while i < arguments.len()
            invariant
                i <= arguments.len(),
                all == argument_views(arguments@),
                so_far.capture_directory == (match capture_directory {
                    Some(path) => Some(path@),
                    None => None,
                }),
                so_far.allow_incomplete == allow_incomplete,
                so_far.configuration_overrides == overrides@,
                arguments_reading(all, ArgumentsView::none()) == arguments_reading(
                    all.skip(i as int),
                    so_far,
                ),
            decreases arguments.len() - i,
        {
            let argument: &str = arguments[i].as_str();
            let ghost rest = all.skip(i as int);
            proof {
                assert(rest[0] == argument@);
                assert(rest.skip(1) =~= all.skip(i + 1));
            }
            if same_text(argument, "--allow-incomplete") {
                allow_incomplete = true;
                i = i + 1;
                proof {
                    so_far = ArgumentsView { allow_incomplete: true, ..so_far };
                }
            } else if same_text(argument, "--config-override") {
                if i + 1 == arguments.len() {
                    return Err("--config-override requires KEY=VALUE".to_owned());
                }
                proof {
                    assert(rest[1] == arguments@[i + 1]@);
                    assert(rest.skip(2) =~= all.skip(i + 2));
                }
                let (key, value) = match split_text_once(arguments[i + 1].as_str(), '=') {
                    Some(parts) => parts,
                    None => return Err("--config-override requires KEY=VALUE".to_owned()),
                };
                if key.as_str().unicode_len() == 0 {
                    return Err("configuration override key cannot be empty".to_owned());
                }
                if setting(&overrides, key.as_str()).is_some() {
                    return Err(prefixed("duplicate configuration override: ", key.as_str()));
                }
                proof {
                    so_far = ArgumentsView {
                        configuration_overrides: inserted(overrides@, key@, value@),
                        ..so_far
                    };
                }
                overrides = overrides.insert(key, value);
                i = i + 2;
            } else if argument.unicode_len() > 0 && argument.get_char(0) == '-' {
                return Err(prefixed("unknown option: ", argument));
            } else if capture_directory.is_none() {
                capture_directory = Some(argument.to_owned());
                i = i + 1;
                proof {
                    so_far = ArgumentsView { capture_directory: Some(argument@), ..so_far };
                }
            } else {
                return Err(prefixed("unexpected argument: ", argument));
            }
        }
        assert(all.skip(i as int).len() == 0);
        match capture_directory {
            None => Err(
                "usage: replay <capture-directory> [--allow-incomplete] [--config-override KEY=VALUE]".to_owned(),
            ),
            Some(capture_directory) => Ok(
                ReplayArguments {
                    capture_directory,
                    allow_incomplete,
                    configuration_overrides: overrides,
                },
            ),
        }
    }
}

/// Entries with others set over them.
pub open spec fn overridden(
    captured: Seq<(Seq<char>, Seq<char>)>,
    overrides: Seq<(Seq<char>, Seq<char>)>,
) -> Seq<(Seq<char>, Seq<char>)>
    decreases overrides.len(),
{
    if overrides.len() == 0 {
        captured
    } else {
        inserted(
            overridden(captured, overrides.drop_last()),
            overrides.last().0,
            overrides.last().1,
        )
    }
}

/// The configuration of a capture with what a replay sets over it.
pub fn resolved_configuration(captured: &Configuration, overrides: &Configuration) -> (resolved:
    Configuration)
    ensures
        resolved@ == overridden(captured@, overrides@),
{
    let mut resolved: Configuration = captured.clone();
    let entries: &[(String, String)] = overrides.entries();
    let ghost all = overrides@;
    let mut i: usize = 0;
    assert(all.take(0) =~= Seq::<(Seq<char>, Seq<char>)>::empty());
    while i < entries.len()
        invariant
            i <= entries.len(),
            entry_views(entries@) == all,
            resolved@ == overridden(captured@, all.take(i as int)),
        decreases entries.len() - i,
    {
        proof {
            assert(all[i as int] == (entries@[i as int].0@, entries@[i as int].1@));
            assert(all.take(i + 1).drop_last() =~= all.take(i as int));
        }
        resolved = resolved.insert(entries[i].0.clone(), entries[i].1.clone());
        i = i + 1;
    }
    assert(all.take(i as int) =~= all);
    resolved
}

/// A value that is set is found under its key, and what stands under other keys stays.
pub proof fn lemma_inserted_value(
    entries: Seq<(Seq<char>, Seq<char>)>,
    key: Seq<char>,
    value: Seq<char>,
    other: Seq<char>,
)
    ensures
        value_under(inserted(entries, key, value), other) == (if other == key {
            Some(value)
        } else {
            value_under(entries, other)
        }),
    decreases entries.len(),
{
    let after = inserted(entries, key, value);
    lemma_text_less_irreflexive(key);
    if entries.len() == 0 {
        assert(after.skip(1) =~= entries);
    } else if text_less(entries[0].0, key) {
        lemma_inserted_value(entries.skip(1), key, value, other);
        assert(after.skip(1) =~= inserted(entries.skip(1), key, value));
    } else if entries[0].0 == key {
        assert(after.skip(1) =~= entries.skip(1));
    } else {
        assert(after.skip(1) =~= entries);
    }
}

proof fn lemma_value_pushed(
    entries: Seq<(Seq<char>, Seq<char>)>,
    last: (Seq<char>, Seq<char>),
    key: Seq<char>,
)
    ensures
        value_under(entries.push(last), key) == (match value_under(entries, key) {
            Some(value) => Some(value),
            None => if last.0 == key {
                Some(last.1)
            } else {
                None
            },
        }),
    decreases entries.len(),
{
    let after = entries.push(last);
    if entries.len() == 0 {
        assert(after.skip(1) =~= entries);
    } else {
        assert(after.skip(1) =~= entries.skip(1).push(last));
        lemma_value_pushed(entries.skip(1), last, key);
    }
}

proof fn lemma_absent(entries: Seq<(Seq<char>, Seq<char>)>, key: Seq<char>)
    requires
        forall|i: int| 0 <= i < entries.len() ==> (#[trigger] entries[i]).0 != key,
    ensures
        value_under(entries, key) is None,
    decreases entries.len(),
{
    if entries.len() > 0 {
        assert forall|i: int| 0 <= i < entries.skip(1).len() implies (#[trigger] entries.skip(
            1,
        )[i]).0 != key by {
            assert(entries.skip(1)[i] == entries[i + 1]);
        }
        lemma_absent(entries.skip(1), key);
    }
}

/// What a replay sets wins, and every other setting stays as captured.
pub proof fn lemma_overrides_win(
    captured: Seq<(Seq<char>, Seq<char>)>,
    overrides: Seq<(Seq<char>, Seq<char>)>,
    key: Seq<char>,
)
    requires
        in_key_order(overrides),
    ensures
        value_under(overridden(captured, overrides), key) == (match value_under(overrides, key) {
            Some(value) => Some(value),
            None => value_under(captured, key),
        }),
    decreases overrides.len(),
{
    if overrides.len() > 0 {
        let earlier = overrides.drop_last();
        let last = overrides.last();
        assert(in_key_order(earlier)) by {
            assert forall|i: int, j: int| 0 <= i < j < earlier.len() implies text_less(
                (#[trigger] earlier[i]).0,
                (#[trigger] earlier[j]).0,
            ) by {
                assert(text_less(overrides[i].0, overrides[j].0));
            }
        }
        lemma_overrides_win(captured, earlier, key);
        lemma_inserted_value(overridden(captured, earlier), last.0, last.1, key);
        lemma_value_pushed(earlier, last, key);
        assert(overrides =~= earlier.push(last));
        if last.0 == key {
            assert forall|i: int| 0 <= i < earlier.len() implies (#[trigger] earlier[i]).0
                != key by {
                assert(text_less(
                    overrides[i].0,
                    overrides[overrides.len() - 1].0,
                ));
                lemma_text_less_irreflexive(key);
            }
            lemma_absent(earlier, key);
        }
    }
}

/// Whether events are numbered from one on, without gaps.
pub open spec fn numbered(events: Seq<ReplayView>) -> bool {
    forall|i: int| 0 <= i < events.len() ==> (#[trigger] events[i]).capture_sequence == i + 1
}

/// The events without their numbers.
pub open spec fn without_numbers(events: Seq<ReplayView>) -> Seq<EventView> {
    events.map_values(|event: ReplayView| event.event)
}

/// Whether a replay ends with this error at the event of the given place: it has another
/// number than the place asks for, or the numbers are used up.
pub open spec fn fails_at(events: Seq<ReplayView>, place: int, error: EngineError) -> bool {
    &&& 0 <= place < events.len()
    &&& place < u64::MAX
    &&& numbered(events.take(place))
    &&& error == if events[place].capture_sequence != place + 1 {
        EngineError::CaptureSequenceMismatch {
            expected: (place + 1) as u64,
            actual: events[place].capture_sequence,
        }
    } else {
        EngineError::CaptureSequenceOverflow
    }
    &&& events[place].capture_sequence == place + 1 ==> place + 1 == u64::MAX
}

/// Runs the engine over the events of a capture, up to the first that it refuses.
pub fn replay_events(events: &[ValidatedReplayEvent]) -> (result: Result<
    EngineReport,
    EngineError,
>)
    ensures
        match result {
            Ok(report) => {
                &&& numbered(replay_views(events@))
                &&& events@.len() < u64::MAX
                &&& reports(run(without_numbers(replay_views(events@))), report@)
            },
            Err(error) => exists|place: int|
                #[trigger] fails_at(replay_views(events@), place, error),
        },
{
    let ghost all = replay_views(events@);
    let ghost bare = without_numbers(all);
    let mut engine: MarketDataEngine = MarketDataEngine::new();
    let mut i: usize = 0;
    assert(bare.take(0) =~= Seq::<EventView>::empty());
    while i < events.len()
        invariant
            i <= events.len(),
            i < u64::MAX,
            all == replay_views(events@),
            bare == without_numbers(all),
            engine.well_formed(),
            engine@ == run(bare.take(i as int)),
            engine@.next_capture_sequence == i + 1,
            numbered(all.take(i as int)),
        decreases events.len() - i,
    {
        let event: &ValidatedReplayEvent = &events[i];
        let ghost refused = all.take(i as int);
        proof {
            assert(all[i as int] == event@);
            assert(bare[i as int] == event@.event);
            assert(bare.take(i + 1).drop_last() =~= bare.take(i as int));
        }
        match engine.process(event.capture_sequence, &event.event) {
            Ok(_) => {},
            Err(error) => {
                assert(fails_at(all, i as int, error));
                return Err(error);
            },
        }
        proof {
            let next = all.take(i + 1);
            assert forall|j: int| 0 <= j < next.len() implies (#[trigger] next[j]).capture_sequence
                == j + 1 by {
                if j < i {
                    assert(next[j] == refused[j]);
                }
            }
        }
        i = i + 1;
    }
    assert(all.take(i as int) =~= all);
    assert(bare.take(i as int) =~= bare);
    Ok(engine.report())
}

/// A validated capture replays to its end: the engine refuses none of its events.
pub proof fn lemma_validated_capture_replays(
    manifest: ManifestView,
    contents: Seq<Seq<u8>>,
    events: Seq<ReplayView>,
    place: int,
    error: EngineError,
)
    requires
        segments_valid(manifest, contents, manifest.segments.len(), events),
        events.len() < u64::MAX,
    ensures
        numbered(events),
        !fails_at(events, place, error),
{
    lemma_validated_sequences(manifest, contents, manifest.segments.len(), events);
}

/// Whether the arguments set the value under the key at a place.
pub open spec fn sets(arguments: Seq<Seq<char>>, place: int, key: Seq<char>, value: Seq<char>) -> bool {
    &&& 0 <= place < arguments.len() - 1
    &&& arguments[place] == "--config-override"@
    &&& arguments[place + 1] == key.push('=') + value
    &&& !key.contains('=')
}

proof fn lemma_once_determined(
    key: Seq<char>,
    value: Seq<char>,
    other_key: Seq<char>,
    other_value: Seq<char>,
)
    requires
        key.push('=') + value == other_key.push('=') + other_value,
        !key.contains('='),
        !other_key.contains('='),
    ensures
        key == other_key,
        value == other_value,
{
    let text = key.push('=') + value;
    let other = other_key.push('=') + other_value;
    if key.len() < other_key.len() {
        assert(text[key.len() as int] == '=');
        assert(other[key.len() as int] == other_key[key.len() as int]);
        assert(other_key.contains('='));
    } else if other_key.len() < key.len() {
        assert(other[other_key.len() as int] == '=');
        assert(text[other_key.len() as int] == key[other_key.len() as int]);
        assert(key.contains('='));
    }
    assert forall|i: int| 0 <= i < key.len() implies key[i] == other_key[i] by {
        assert(text[i] == key[i] && other[i] == other_key[i]);
    }
    assert(key =~= other_key);
    assert(text.skip(key.len() as int + 1) =~= value);
    assert(other.skip(other_key.len() as int + 1) =~= other_value);
}

proof fn lemma_options_have_no_value()
    ensures
        !"--config-override"@.contains('='),
        !"--allow-incomplete"@.contains('='),
        "--config-override"@ != "--allow-incomplete"@,
        "--config-override"@.len() > 0 && "--config-override"@[0] == '-',
        "--allow-incomplete"@.len() > 0 && "--allow-incomplete"@[0] == '-',
{
    reveal_strlit("--config-override");
    reveal_strlit("--allow-incomplete");
    assert("--config-override"@[2] == 'c');
    assert("--allow-incomplete"@[2] == 'a');
}

proof fn lemma_settings_read(
    arguments: Seq<Seq<char>>,
    so_far: ArgumentsView,
    read: ArgumentsView,
    key: Seq<char>,
    value: Seq<char>,
)
    requires
        arguments_reading(arguments, so_far) == Ok::<ArgumentsView, Seq<char>>(read),
    ensures
        read.allow_incomplete <==> so_far.allow_incomplete || arguments.contains(
            "--allow-incomplete"@,
        ),
        value_under(read.configuration_overrides, key) == Some(value) <==> value_under(
            so_far.configuration_overrides,
            key,
        ) == Some(value) || key.len() > 0 && exists|i: int| #[trigger] sets(arguments, i, key, value),
        so_far.capture_directory is Some ==> read.capture_directory == so_far.capture_directory,
        so_far.capture_directory is None && read.capture_directory is Some ==> arguments.contains(
            read.capture_directory->Some_0,
        ),
    decreases arguments.len(),
{
    lemma_options_have_no_value();
    if arguments.len() == 0 {
    } else if arguments[0] == "--config-override"@ {
        let rest = arguments.skip(2);
        lemma_split_once_parts(arguments[1], '=');
        let (name, text) = split_once(arguments[1], '=')->Some_0;
        let next = ArgumentsView {
            configuration_overrides: inserted(so_far.configuration_overrides, name, text),
            ..so_far
        };
        lemma_settings_read(rest, next, read, key, value);
        lemma_inserted_value(so_far.configuration_overrides, name, text, key);
        assert(sets(arguments, 0, name, text));
        assert forall|i: int| #[trigger] sets(rest, i, key, value) implies sets(
            arguments,
            i + 2,
            key,
            value,
        ) by {
            assert(rest[i] == arguments[i + 2] && rest[i + 1] == arguments[i + 3]);
        }
        if rest.contains("--allow-incomplete"@) {
            let k = choose|k: int| 0 <= k < rest.len() && rest[k] == "--allow-incomplete"@;
            assert(arguments[k + 2] == "--allow-incomplete"@);
        }
        if arguments.contains("--allow-incomplete"@) {
            let k = choose|k: int|
                0 <= k < arguments.len() && arguments[k] == "--allow-incomplete"@;
            assert(k != 1);
            assert(rest[k - 2] == "--allow-incomplete"@);
        }
        if exists|i: int| #[trigger] sets(arguments, i, key, value) {
            let k = choose|i: int| #[trigger] sets(arguments, i, key, value);
            if k == 0 {
                lemma_once_determined(name, text, key, value);
            } else {
                assert(k != 1);
                assert(rest[k - 2] == arguments[k] && rest[k - 1] == arguments[k + 1]);
                assert(sets(rest, k - 2, key, value));
            }
        }
        if read.capture_directory is Some && so_far.capture_directory is None {
            let path = read.capture_directory->Some_0;
            let k = choose|k: int| 0 <= k < rest.len() && rest[k] == path;
            assert(arguments[k + 2] == path);
        }
    } else {
        let rest = arguments.skip(1);
        let next = if arguments[0] == "--allow-incomplete"@ {
            ArgumentsView { allow_incomplete: true, ..so_far }
        } else {
            ArgumentsView { capture_directory: Some(arguments[0]), ..so_far }
        };
        lemma_settings_read(rest, next, read, key, value);
        assert forall|i: int| #[trigger] sets(rest, i, key, value) implies sets(
            arguments,
            i + 1,
            key,
            value,
        ) by {
            assert(rest[i] == arguments[i + 1] && rest[i + 1] == arguments[i + 2]);
        }
        if exists|i: int| #[trigger] sets(arguments, i, key, value) {
            let k = choose|i: int| #[trigger] sets(arguments, i, key, value);
            assert(rest[k - 1] == arguments[k] && rest[k] == arguments[k + 1]);
            assert(sets(rest, k - 1, key, value));
        }
        assert(arguments.contains(arguments[0]));
        if rest.contains("--allow-incomplete"@) {
            let k = choose|k: int| 0 <= k < rest.len() && rest[k] == "--allow-incomplete"@;
            assert(arguments[k + 1] == "--allow-incomplete"@);
        }
        if arguments.contains("--allow-incomplete"@) && arguments[0] != "--allow-incomplete"@ {
            let k = choose|k: int|
                0 <= k < arguments.len() && arguments[k] == "--allow-incomplete"@;
            assert(rest[k - 1] == "--allow-incomplete"@);
        }
        if read.capture_directory is Some && next.capture_directory is None {
            let path = read.capture_directory->Some_0;
            let k = choose|k: int| 0 <= k < rest.len() && rest[k] == path;
            assert(arguments[k + 1] == path);
        }
    }
}

/// What is read of the arguments of a replay is what they say: the directory is one of them, an
/// incomplete capture is allowed if and only if one of them allows it, and a setting has a value
/// if and only if an argument gives it that value.
pub proof fn lemma_replay_arguments_say(
    arguments: Seq<Seq<char>>,
    read: ArgumentsView,
    key: Seq<char>,
    value: Seq<char>,
)
    requires
        replay_arguments(arguments) == Ok::<ArgumentsView, Seq<char>>(read),
    ensures
        read.capture_directory is Some,
        arguments.contains(read.capture_directory->Some_0),
        read.allow_incomplete <==> arguments.contains("--allow-incomplete"@),
        value_under(read.configuration_overrides, key) == Some(value) <==> key.len() > 0
            && exists|i: int| #[trigger] sets(arguments, i, key, value),
{
    lemma_settings_read(arguments, ArgumentsView::none(), read, key, value);
}

} // verus!
