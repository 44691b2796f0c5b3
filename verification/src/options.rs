//! The options of a stream that is started from the command line.

use crate::settings::{CaptureMode, LatencyMode, VideoQuality};
use crate::text::{begins_with, chars_of, same_text, starts_with, text_of, texts};
use vstd::prelude::*;
use vstd::string::*;

verus! {

/// What is shared: a moving test card, or a screen that is chosen in the given mode.
#[derive(Clone, Copy, Debug, PartialEq, Eq, Structural)]
pub enum Subject {
    TestCard,
    Screen(CaptureMode),
}

/// An option that cannot be followed.
#[derive(Debug, PartialEq, Eq)]
pub enum OptionError {
    BothSources,
    Quality(String),
    Latency(String),
}

impl OptionError {
    pub open spec fn text(self) -> Seq<char> {
        match self {
            OptionError::BothSources => "Use --test or --extend, not both"@,
            OptionError::Quality(value) => "Unknown quality: "@ + value@,
            OptionError::Latency(value) => "Unknown latency: "@ + value@,
        }
    }

    pub fn message(&self) -> (r: String)
        ensures
            r@ == self.text(),
    {
        match self {
            OptionError::BothSources => "Use --test or --extend, not both".to_owned(),
            OptionError::Quality(value) => {
                let mut text = "Unknown quality: ".to_owned();
                text.append(value.as_str());
                text
            },
            OptionError::Latency(value) => {
                let mut text = "Unknown latency: ".to_owned();
                text.append(value.as_str());
                text
            },
        }
    }
}

/// What follows a prefix in the first argument that begins with it.
pub open spec fn value_behind(arguments: Seq<Seq<char>>, prefix: Seq<char>) -> Option<Seq<char>>
    decreases arguments.len(),
{
    if arguments.len() == 0 {
        None
    } else if begins_with(arguments[0], prefix) {
        Some(arguments[0].skip(prefix.len() as int))
    } else {
        value_behind(arguments.drop_first(), prefix)
    }
}

fn find_value(arguments: &Vec<String>, prefix: &str) -> (r: Option<String>)
    ensures
        text_of(r) == value_behind(texts(arguments@), prefix@),
{
    let ghost all = texts(arguments@);
    let start = chars_of(prefix);
    let mut at: usize = 0;
    assert(all.skip(0) =~= all);
    while at < arguments.len()
        invariant
            at <= arguments@.len(),
            all == texts(arguments@),
            start@ == prefix@,
            value_behind(all, prefix@) == value_behind(all.skip(at as int), prefix@),
        decreases arguments@.len() - at,
    {
        let argument = arguments[at].as_str();
        let ghost left = all.skip(at as int);
        assert(left[0] == argument@);
        assert(left.drop_first() =~= all.skip(at + 1));
        if starts_with(chars_of(argument).as_slice(), start.as_slice()) {
            let size = argument.unicode_len();
            let value = argument.substring_char(start.len(), size).to_owned();
            assert(value@ =~= argument@.skip(prefix@.len() as int));
            return Some(value);
        }
        at = at + 1;
    }
    None
}

fn has_argument(arguments: &Vec<String>, flag: &str) -> (r: bool)
    ensures
        r == texts(arguments@).contains(flag@),
{
    let ghost all = texts(arguments@);
    let mut at: usize = 0;
    while at < arguments.len()
        invariant
            at <= arguments@.len(),
            all == texts(arguments@),
            forall|i: int| 0 <= i < at ==> #[trigger] all[i] != flag@,
        decreases arguments@.len() - at,
    {
        assert(all[at as int] == arguments@[at as int]@);
        if same_text(arguments[at].as_str(), flag) {
            return true;
        }
        at = at + 1;
    }
    false
}

/// What to share: the test card with `--test`, an extended display with `--extend`, else a screen
/// or window.
pub fn source_option(arguments: &Vec<String>) -> (r: Result<Subject, OptionError>)
    ensures
        ({
            let test = texts(arguments@).contains("--test"@);
            let extend = texts(arguments@).contains("--extend"@);
            if test && extend {
                r == Err::<Subject, OptionError>(OptionError::BothSources)
            } else if test {
                r == Ok::<Subject, OptionError>(Subject::TestCard)
            } else if extend {
                r == Ok::<Subject, OptionError>(Subject::Screen(CaptureMode::Extend))
            } else {
                r == Ok::<Subject, OptionError>(Subject::Screen(CaptureMode::Mirror))
            }
        }),
{
    match (has_argument(arguments, "--test"), has_argument(arguments, "--extend")) {
        (true, true) => Err(OptionError::BothSources),
        (true, false) => Ok(Subject::TestCard),
        (false, true) => Ok(Subject::Screen(CaptureMode::Extend)),
        (false, false) => Ok(Subject::Screen(CaptureMode::Mirror)),
    }
}

/// The quality that `--quality=` names, or the high one.
pub fn quality_option(arguments: &Vec<String>) -> (r: Result<VideoQuality, OptionError>)
    ensures
        match value_behind(texts(arguments@), "--quality="@) {
            None => r == Ok::<VideoQuality, OptionError>(VideoQuality::High),
            Some(value) => if value == "1080p30"@ {
                r == Ok::<VideoQuality, OptionError>(VideoQuality::High)
            } else if value == "720p30"@ {
                r == Ok::<VideoQuality, OptionError>(VideoQuality::Efficient)
            } else if value == "1080p60"@ {
                r == Ok::<VideoQuality, OptionError>(VideoQuality::Smooth)
            } else {
                r matches Err(OptionError::Quality(named)) && named@ == value
            },
        },
{
    match find_value(arguments, "--quality=") {
        None => Ok(VideoQuality::High),
        Some(value) => if same_text(value.as_str(), "1080p30") {
            Ok(VideoQuality::High)
        } else if same_text(value.as_str(), "720p30") {
            Ok(VideoQuality::Efficient)
        } else if same_text(value.as_str(), "1080p60") {
            Ok(VideoQuality::Smooth)
        } else {
            Err(OptionError::Quality(value))
        },
    }
}

/// The latency that `--latency=` names by its milliseconds, or the interactive one.
pub fn latency_option(arguments: &Vec<String>) -> (r: Result<LatencyMode, OptionError>)
    ensures
        match value_behind(texts(arguments@), "--latency="@) {
            None => r == Ok::<LatencyMode, OptionError>(LatencyMode::Interactive),
            Some(value) => if value == "50"@ {
                r == Ok::<LatencyMode, OptionError>(LatencyMode::Interactive)
            } else if value == "100"@ {
                r == Ok::<LatencyMode, OptionError>(LatencyMode::Responsive)
            } else if value == "500"@ {
                r == Ok::<LatencyMode, OptionError>(LatencyMode::Buffered)
            } else {
                r matches Err(OptionError::Latency(named)) && named@ == value
            },
        },
{
    match find_value(arguments, "--latency=") {
        None => Ok(LatencyMode::Interactive),
        Some(value) => if same_text(value.as_str(), "50") {
            Ok(LatencyMode::Interactive)
        } else if same_text(value.as_str(), "100") {
            Ok(LatencyMode::Responsive)
        } else if same_text(value.as_str(), "500") {
            Ok(LatencyMode::Buffered)
        } else {
            Err(OptionError::Latency(value))
        },
    }
}

/// An option is read from the first argument that begins with its name, wherever that stands.
pub proof fn options_are_found(
    front: Seq<Seq<char>>,
    prefix: Seq<char>,
    value: Seq<char>,
    back: Seq<Seq<char>>,
)
    requires
        forall|i: int| 0 <= i < front.len() ==> !begins_with(#[trigger] front[i], prefix),
    ensures
        value_behind(front + seq![prefix + value] + back, prefix) == Some(value),
    decreases front.len(),
{
    let all = front + seq![prefix + value] + back;
    if front.len() == 0 {
        assert(all[0] == prefix + value);
        assert((prefix + value).take(prefix.len() as int) =~= prefix);
        assert((prefix + value).skip(prefix.len() as int) =~= value);
    } else {
        assert(all[0] == front[0]);
        assert(!begins_with(front[0], prefix));
        let rest = front.drop_first();
        assert forall|i: int| 0 <= i < rest.len() implies !begins_with(#[trigger] rest[i], prefix) by {
            assert(rest[i] == front[i + 1]);
        }
        options_are_found(rest, prefix, value, back);
        assert(all.drop_first() =~= rest + seq![prefix + value] + back);
    }
}

} // verus!
