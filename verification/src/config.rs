//! What the user can set on the command line.
use vstd::prelude::*;

use crate::text::same_text;

verus! {

/// The settings of the virtual devices.
#[derive(Debug, PartialEq, Eq)]
pub struct PatchbayConfig {
    /// What the name of the virtual sink starts with.
    pub sink_prefix: String,
    pub sink_description: String,
    /// Whether there is a virtual microphone.
    pub virtual_mic: bool,
    pub virtual_mic_name: Option<String>,
    pub virtual_mic_description: Option<String>,
}

/// A [`PatchbayConfig`] with its texts as sequences of characters.
pub struct ConfigView {
    pub sink_prefix: Seq<char>,
    pub sink_description: Seq<char>,
    pub virtual_mic: bool,
    pub virtual_mic_name: Option<Seq<char>>,
    pub virtual_mic_description: Option<Seq<char>>,
}

impl View for PatchbayConfig {
    type V = ConfigView;

    open spec fn view(&self) -> ConfigView {
        ConfigView {
            sink_prefix: self.sink_prefix@,
            sink_description: self.sink_description@,
            virtual_mic: self.virtual_mic,
            virtual_mic_name: self.virtual_mic_name.deep_view(),
            virtual_mic_description: self.virtual_mic_description.deep_view(),
        }
    }
}

/// The settings of a user who sets nothing.
pub open spec fn default_config() -> ConfigView {
    ConfigView {
        sink_prefix: "patchcord-screen-share"@,
        sink_description: "GoofCord Screen Share"@,
        virtual_mic: false,
        virtual_mic_name: None,
        virtual_mic_description: None,
    }
}

impl Default for PatchbayConfig {
    fn default() -> (config: PatchbayConfig)
        ensures
            config@ == default_config(),
    {
        PatchbayConfig {
            sink_prefix: "patchcord-screen-share".to_string(),
            sink_description: "GoofCord Screen Share".to_string(),
            virtual_mic: false,
            virtual_mic_name: None,
            virtual_mic_description: None,
        }
    }
}

/// What the arguments of the program ask for.
#[derive(Debug)]
pub struct ParsedArgs {
    pub config: PatchbayConfig,
    /// Whether to print help and exit.
    pub help: bool,
    /// The arguments that mean nothing, in their order.
    pub ignored: Vec<String>,
}

/// [`ParsedArgs`] with its texts as sequences of characters.
pub struct ArgsView {
    pub config: ConfigView,
    pub help: bool,
    pub ignored: Seq<Seq<char>>,
}

impl View for ParsedArgs {
    type V = ArgsView;

    open spec fn view(&self) -> ArgsView {
        ArgsView {
            config: self.config@,
            help: self.help,
            ignored: self.ignored.deep_view(),
        }
    }
}

/// Whether an argument is an option that the next argument is the value of.
pub open spec fn takes_value(arg: Seq<char>) -> bool {
    ||| arg == "--sink-prefix"@
    ||| arg == "--sink-description"@
    ||| arg == "--virtual-mic-name"@
    ||| arg == "--virtual-mic-description"@
}

/// The settings after an option with a value.
pub open spec fn with_option(config: ConfigView, option: Seq<char>, value: Seq<char>) -> ConfigView {
    if option == "--sink-prefix"@ {
        ConfigView { sink_prefix: value, ..config }
    } else if option == "--sink-description"@ {
        ConfigView { sink_description: value, ..config }
    } else if option == "--virtual-mic-name"@ {
        ConfigView { virtual_mic_name: Some(value), ..config }
    } else {
        ConfigView { virtual_mic_description: Some(value), ..config }
    }
}

/// What `args` add to what was read before them. A call for help ends the
/// reading; an option whose value is missing sets nothing.
pub open spec fn read_args(args: Seq<Seq<char>>, so_far: ArgsView) -> ArgsView
    decreases args.len(),
{
    if args.len() == 0 {
        so_far
    } else if args[0] == "-h"@ || args[0] == "--help"@ {
        ArgsView { help: true, ..so_far }
    } else if args[0] == "--virtual-mic"@ {
        read_args(
            args.drop_first(),
            ArgsView { config: ConfigView { virtual_mic: true, ..so_far.config }, ..so_far },
        )
    } else if takes_value(args[0]) {
        if args.len() == 1 {
            so_far
        } else {
            read_args(
                args.skip(2),
                ArgsView { config: with_option(so_far.config, args[0], args[1]), ..so_far },
            )
        }
    } else {
        read_args(args.drop_first(), ArgsView { ignored: so_far.ignored.push(args[0]), ..so_far })
    }
}

/// What the arguments of the program ask for.
pub open spec fn parsed_args(args: Seq<Seq<char>>) -> ArgsView {
    read_args(args, ArgsView { config: default_config(), help: false, ignored: seq![] })
}

fn set_option(config: &mut PatchbayConfig, option: &str, value: String)
    ensures
        final(config)@ == with_option(old(config)@, option@, value@),
{
    if same_text(option, "--sink-prefix") {
        config.sink_prefix = value;
    } else if same_text(option, "--sink-description") {
        config.sink_description = value;
    } else if same_text(option, "--virtual-mic-name") {
        config.virtual_mic_name = Some(value);
    } else {
        config.virtual_mic_description = Some(value);
    }
}

fn is_valued(arg: &str) -> (yes: bool)
    ensures
        yes == takes_value(arg@),
{
    same_text(arg, "--sink-prefix") || same_text(arg, "--sink-description") || same_text(
        arg,
        "--virtual-mic-name",
    ) || same_text(arg, "--virtual-mic-description")
}

/// Reads the arguments of the program, without its name.
pub fn parse_args(args: &Vec<String>) -> (parsed: ParsedArgs)
    ensures
        parsed@ == parsed_args(args.deep_view()),
{
    let ghost all = args.deep_view();
    let mut parsed = ParsedArgs { config: PatchbayConfig::default(), help: false, ignored: Vec::new() };
    let mut i: usize = 0;
    assert(all.skip(0) =~= all);
    assert(parsed@.ignored =~= seq![]);
    while i < args.len()
        invariant
            i <= args.len(),
            all == args.deep_view(),
            parsed_args(all) == read_args(all.skip(i as int), parsed@),
        decreases args.len() - i,
    {
        let ghost rest = all.skip(i as int);
        let ghost before = parsed@;
        let arg = args[i].as_str();
        assert(rest[0] == arg@);
        assert(rest.drop_first() =~= all.skip(i + 1));
        if same_text(arg, "-h") || same_text(arg, "--help") {
            parsed.help = true;
            return parsed;
        } else if same_text(arg, "--virtual-mic") {
            parsed.config.virtual_mic = true;
            i += 1;
        } else if is_valued(arg) {
            if i + 1 == args.len() {
                return parsed;
            }
            assert(rest[1] == all[i + 1]);
            assert(rest.skip(2) =~= all.skip(i + 2));
            set_option(&mut parsed.config, arg, args[i + 1].clone());
            i += 2;
        } else {
            parsed.ignored.push(args[i].clone());
            assert(parsed@.ignored =~= before.ignored.push(arg@));
            i += 1;
        }
    }
    assert(all.skip(i as int) =~= seq![]);
    parsed
}

/// An option that comes again takes the place of what it set before.
pub proof fn law_last_option_wins(
    option: Seq<char>,
    first: Seq<char>,
    second: Seq<char>,
    rest: Seq<Seq<char>>,
    so_far: ArgsView,
)
    requires
        takes_value(option),
    ensures
        read_args(seq![option, first, option, second] + rest, so_far) == read_args(
            seq![option, second] + rest,
            so_far,
        ),
{
    lemma_options_differ();
    let twice = seq![option, first, option, second] + rest;
    let once = seq![option, second] + rest;
    assert(twice.skip(2) =~= once);
    assert(once.skip(2) =~= rest);
    reveal_with_fuel(read_args, 3);
}

/// The options with a value are none of the others.
proof fn lemma_options_differ()
    ensures
        !takes_value("-h"@),
        !takes_value("--help"@),
        !takes_value("--virtual-mic"@),
{
    reveal_strlit("-h");
    reveal_strlit("--help");
    reveal_strlit("--virtual-mic");
    reveal_strlit("--sink-prefix");
    reveal_strlit("--sink-description");
    reveal_strlit("--virtual-mic-name");
    reveal_strlit("--virtual-mic-description");
    assert("-h"@.len() == 2);
    assert("--help"@.len() == 6);
    assert("--virtual-mic"@.len() == 13);
    assert("--virtual-mic"@[2] == 'v');
    assert("--sink-prefix"@[2] == 's');
    assert("--sink-description"@.len() == 18);
    assert("--virtual-mic-name"@.len() == 18);
    assert("--virtual-mic-description"@.len() == 25);
}

/// The settings of the virtual microphone.
#[derive(Debug)]
pub struct MicConfig {
    pub name: String,
    pub description: String,
}

/// A [`MicConfig`] with its texts as sequences of characters.
pub struct MicView {
    pub name: Seq<char>,
    pub description: Seq<char>,
}

impl View for MicConfig {
    type V = MicView;

    open spec fn view(&self) -> MicView {
        MicView { name: self.name@, description: self.description@ }
    }
}

impl DeepView for MicConfig {
    type V = MicView;

    open spec fn deep_view(&self) -> MicView {
        self@
    }
}

/// The virtual microphone that the settings ask for. Without a name of its own
/// it is named like the sink with `-mic` behind the prefix, and without a
/// description of its own it is described like the sink with a remark.
pub open spec fn mic_of(config: ConfigView, process_id: u32, unique: u64) -> Option<MicView> {
    if config.virtual_mic {
        Some(
            MicView {
                name: match config.virtual_mic_name {
                    Some(name) => name,
                    None => crate::modules::unique_name(
                        config.sink_prefix + "-mic"@,
                        process_id,
                        unique,
                    ),
                },
                description: match config.virtual_mic_description {
                    Some(description) => description,
                    None => config.sink_description + " (Virtual Mic)"@,
                },
            },
        )
    } else {
        None
    }
}

/// The virtual microphone that the settings ask for.
pub fn mic_config(config: &PatchbayConfig, process_id: u32, unique: u64) -> (mic: Option<MicConfig>)
    ensures
        mic.deep_view() == mic_of(config@, process_id, unique),
{
    if !config.virtual_mic {
        return None;
    }
    let name = match &config.virtual_mic_name {
        Some(name) => name.clone(),
        None => {
            let mut prefix = config.sink_prefix.clone();
            prefix.append("-mic");
            crate::modules::make_unique_name(prefix.as_str(), process_id, unique)
        },
    };
    let description = match &config.virtual_mic_description {
        Some(description) => description.clone(),
        None => {
            let mut description = config.sink_description.clone();
            description.append(" (Virtual Mic)");
            description
        },
    };
    Some(MicConfig { name, description })
}

/// What a user gets who sets nothing.
pub proof fn law_defaults()
    ensures
        parsed_args(seq![]).config.sink_prefix == "patchcord-screen-share"@,
        parsed_args(seq![]).config.sink_description == "GoofCord Screen Share"@,
        !parsed_args(seq![]).config.virtual_mic,
        parsed_args(seq![]).config.virtual_mic_name is None,
        parsed_args(seq![]).config.virtual_mic_description is None,
        !parsed_args(seq![]).help,
        parsed_args(seq![]).ignored == Seq::<Seq<char>>::empty(),
{
}

/// The options with a value are all different.
proof fn lemma_valued_options_differ()
    ensures
        "--sink-prefix"@ != "--sink-description"@,
        "--sink-prefix"@ != "--virtual-mic-name"@,
        "--sink-prefix"@ != "--virtual-mic-description"@,
        "--sink-description"@ != "--virtual-mic-name"@,
        "--sink-description"@ != "--virtual-mic-description"@,
        "--virtual-mic-name"@ != "--virtual-mic-description"@,
{
    reveal_strlit("--sink-prefix");
    reveal_strlit("--sink-description");
    reveal_strlit("--virtual-mic-name");
    reveal_strlit("--virtual-mic-description");
    assert("--sink-prefix"@.len() == 13);
    assert("--sink-description"@.len() == 18);
    assert("--virtual-mic-name"@.len() == 18);
    assert("--virtual-mic-description"@.len() == 25);
    assert("--sink-description"@[2] == 's');
    assert("--virtual-mic-name"@[2] == 'v');
}

/// Each option with a value sets its own setting to the value and leaves the
/// others as they are, and the reading goes on behind the value.
pub proof fn law_options_set_their_own(value: Seq<char>, rest: Seq<Seq<char>>, so_far: ArgsView)
    ensures
        read_args(seq!["--sink-prefix"@, value] + rest, so_far) == read_args(
            rest,
            ArgsView { config: ConfigView { sink_prefix: value, ..so_far.config }, ..so_far },
        ),
        read_args(seq!["--sink-description"@, value] + rest, so_far) == read_args(
            rest,
            ArgsView { config: ConfigView { sink_description: value, ..so_far.config }, ..so_far },
        ),
        read_args(seq!["--virtual-mic-name"@, value] + rest, so_far) == read_args(
            rest,
            ArgsView {
                config: ConfigView { virtual_mic_name: Some(value), ..so_far.config },
                ..so_far
            },
        ),
        read_args(seq!["--virtual-mic-description"@, value] + rest, so_far) == read_args(
            rest,
            ArgsView {
                config: ConfigView { virtual_mic_description: Some(value), ..so_far.config },
                ..so_far
            },
        ),
{
    lemma_options_differ();
    lemma_valued_options_differ();
    assert((seq!["--sink-prefix"@, value] + rest).skip(2) =~= rest);
    assert((seq!["--sink-description"@, value] + rest).skip(2) =~= rest);
    assert((seq!["--virtual-mic-name"@, value] + rest).skip(2) =~= rest);
    assert((seq!["--virtual-mic-description"@, value] + rest).skip(2) =~= rest);
}

/// The option for the microphone takes no value, and a call for help ends the
/// reading, whatever follows.
pub proof fn law_flags(rest: Seq<Seq<char>>, so_far: ArgsView)
    ensures
        read_args(seq!["--virtual-mic"@] + rest, so_far) == read_args(
            rest,
            ArgsView { config: ConfigView { virtual_mic: true, ..so_far.config }, ..so_far },
        ),
        read_args(seq!["-h"@] + rest, so_far) == (ArgsView { help: true, ..so_far }),
        read_args(seq!["--help"@] + rest, so_far) == (ArgsView { help: true, ..so_far }),
{
    reveal_strlit("-h");
    reveal_strlit("--help");
    reveal_strlit("--virtual-mic");
    assert("-h"@.len() == 2);
    assert("--help"@.len() == 6);
    assert("--virtual-mic"@.len() == 13);
    assert((seq!["--virtual-mic"@] + rest).drop_first() =~= rest);
}

/// Any other argument is passed over and told as such, and an option whose value
/// is missing sets nothing.
pub proof fn law_other_arguments(arg: Seq<char>, rest: Seq<Seq<char>>, so_far: ArgsView)
    ensures
        arg != "-h"@ && arg != "--help"@ && arg != "--virtual-mic"@ && arg != "--sink-prefix"@ && arg
            != "--sink-description"@ && arg != "--virtual-mic-name"@ && arg
            != "--virtual-mic-description"@ ==> read_args(seq![arg] + rest, so_far) == read_args(
            rest,
            ArgsView { ignored: so_far.ignored.push(arg), ..so_far },
        ),
        arg == "--sink-prefix"@ || arg == "--sink-description"@ || arg == "--virtual-mic-name"@
            || arg == "--virtual-mic-description"@ ==> read_args(seq![arg], so_far) == so_far,
        read_args(seq![], so_far) == so_far,
{
    lemma_options_differ();
    assert((seq![arg] + rest).drop_first() =~= rest);
}

/// There is a microphone exactly when it is asked for. It has the name and the
/// description that it is given, and without them those of the sink with a mark.
pub proof fn law_microphone_settings(config: ConfigView, process_id: u32, unique: u64)
    ensures
        mic_of(config, process_id, unique) is Some <==> config.virtual_mic,
        mic_of(config, process_id, unique) matches Some(mic) ==> {
            &&& config.virtual_mic_name matches Some(name) ==> mic.name == name
            &&& config.virtual_mic_name is None ==> mic.name == config.sink_prefix + "-mic"@ + "-"@
                + crate::text::decimal(process_id as nat) + "-"@ + crate::text::decimal(
                unique as nat,
            )
            &&& config.virtual_mic_description matches Some(description) ==> mic.description
                == description
            &&& config.virtual_mic_description is None ==> mic.description
                == config.sink_description + " (Virtual Mic)"@
        },
{
}

/// The reading starts with the settings of a user who sets nothing.
pub proof fn law_reading_starts_with_defaults(args: Seq<Seq<char>>)
    ensures
        parsed_args(args) == read_args(args, parsed_args(seq![])),
{
}

} // verus!
