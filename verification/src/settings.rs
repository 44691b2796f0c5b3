//! Validated quality presets shared by the interface, capture and stream setup.

use crate::failure::Failure;
use crate::text::decimal;
use std::time::Duration;
use vstd::prelude::*;

verus! {

/// `Duration::from_millis` of a number of milliseconds.
pub uninterp spec fn duration_from_millis(millis: u64) -> Duration;

/// `std::time::Duration::from_millis`: the duration of that many whole milliseconds. The type is
/// opaque here, so the result is only named; it depends on the argument alone.
pub assume_specification[ Duration::from_millis ](millis: u64) -> (r: Duration)
    ensures
        r == duration_from_millis(millis),
;

/// How far ahead of capture the receiver is asked to play.
#[derive(Clone, Copy, Debug, PartialEq, Eq, Structural)]
pub enum LatencyMode {
    Interactive,
    Responsive,
    Buffered,
}

impl Default for LatencyMode {
    fn default() -> (r: Self)
        ensures
            r == LatencyMode::Interactive,
    {
        LatencyMode::Interactive
    }
}

impl LatencyMode {
    pub const ALL: [Self; 3] = [
        LatencyMode::Interactive,
        LatencyMode::Responsive,
        LatencyMode::Buffered,
    ];

    /// The playback lead in milliseconds.
    pub open spec fn lead_millis(self) -> u64 {
        match self {
            LatencyMode::Interactive => 50,
            LatencyMode::Responsive => 100,
            LatencyMode::Buffered => 500,
        }
    }

    pub open spec fn label_text(self) -> Seq<char> {
        match self {
            LatencyMode::Interactive => "Interactive · 50 ms"@,
            LatencyMode::Responsive => "Responsive · 100 ms"@,
            LatencyMode::Buffered => "Buffered · 500 ms"@,
        }
    }

    pub fn label(self) -> (r: &'static str)
        ensures
            r@ == self.label_text(),
    {
        match self {
            LatencyMode::Interactive => "Interactive · 50 ms",
            LatencyMode::Responsive => "Responsive · 100 ms",
            LatencyMode::Buffered => "Buffered · 500 ms",
        }
    }

    pub fn millis(self) -> (r: u64)
        ensures
            r == self.lead_millis(),
    {
        match self {
            LatencyMode::Interactive => 50,
            LatencyMode::Responsive => 100,
            LatencyMode::Buffered => 500,
        }
    }

    pub fn lead(self) -> (r: Duration)
        ensures
            r == duration_from_millis(self.lead_millis()),
    {
        Duration::from_millis(self.millis())
    }

    /// The playback lead in nanoseconds.
    pub fn lead_nanos(self) -> (r: u64)
        ensures
            r == self.lead_millis() * 1_000_000,
    {
        self.millis() * 1_000_000
    }

    /// The playback lead in whole samples at `rate` samples a second.
    pub fn audio_samples(self, rate: u32) -> (r: u32)
        ensures
            r == self.lead_millis() * rate / 1000,
    {
        (self.millis() * rate as u64 / 1000) as u32
    }
}

/// At 44.1 kHz the audio offset and the video lead are exactly the same length of time, in every
/// mode.
pub proof fn audio_and_video_leads_agree(mode: LatencyMode)
    ensures
        (mode.lead_millis() * 44100 / 1000) * 1_000_000_000 == (mode.lead_millis() * 1_000_000)
            * 44100,
{
}

#[derive(Clone, Copy, Debug, PartialEq, Eq, Structural)]
pub enum VideoQuality {
    Efficient,
    High,
    Smooth,
}

impl Default for VideoQuality {
    fn default() -> (r: Self)
        ensures
            r == VideoQuality::High,
    {
        VideoQuality::High
    }
}

impl VideoQuality {
    pub const ALL: [Self; 3] = [VideoQuality::Efficient, VideoQuality::High, VideoQuality::Smooth];

    pub open spec fn label_text(self) -> Seq<char> {
        match self {
            VideoQuality::Efficient => "720p / 30"@,
            VideoQuality::High => "1080p / 30"@,
            VideoQuality::Smooth => "1080p / 60"@,
        }
    }

    pub open spec fn description_text(self) -> Seq<char> {
        match self {
            VideoQuality::Efficient => "Lower bandwidth and CPU use · up to 8 Mbps"@,
            VideoQuality::High => "Sharper text and detail · up to 20 Mbps"@,
            VideoQuality::Smooth => "Sharper text and smoother motion · up to 30 Mbps · higher CPU use"@,
        }
    }

    pub fn label(self) -> (r: &'static str)
        ensures
            r@ == self.label_text(),
    {
        match self {
            VideoQuality::Efficient => "720p / 30",
            VideoQuality::High => "1080p / 30",
            VideoQuality::Smooth => "1080p / 60",
        }
    }

    pub fn description(self) -> (r: &'static str)
        ensures
            r@ == self.description_text(),
    {
        match self {
            VideoQuality::Efficient => "Lower bandwidth and CPU use · up to 8 Mbps",
            VideoQuality::High => "Sharper text and detail · up to 20 Mbps",
            VideoQuality::Smooth => "Sharper text and smoother motion · up to 30 Mbps · higher CPU use",
        }
    }

    /// The encoding settings of each preset.
    pub open spec fn preset(self) -> VideoConfig {
        match self {
            VideoQuality::Efficient => VideoConfig {
                width: 1280,
                height: 720,
                fps: 30,
                crf: 23,
                max_kbps: 8000,
                buffer_kbps: 2000,
                preset: "ultrafast",
            },
            VideoQuality::High => VideoConfig {
                width: 1920,
                height: 1080,
                fps: 30,
                crf: 18,
                max_kbps: 20000,
                buffer_kbps: 4000,
                preset: "veryfast",
            },
            VideoQuality::Smooth => VideoConfig {
                width: 1920,
                height: 1080,
                fps: 60,
                crf: 18,
                max_kbps: 30000,
                buffer_kbps: 6000,
                preset: "veryfast",
            },
        }
    }

    pub fn config(self) -> (r: VideoConfig)
        ensures
            r == self.preset(),
    {
        match self {
            VideoQuality::Efficient => VideoConfig {
                width: 1280,
                height: 720,
                fps: 30,
                crf: 23,
                max_kbps: 8000,
                buffer_kbps: 2000,
                preset: "ultrafast",
            },
            VideoQuality::High => VideoConfig {
                width: 1920,
                height: 1080,
                fps: 30,
                crf: 18,
                max_kbps: 20000,
                buffer_kbps: 4000,
                preset: "veryfast",
            },
            VideoQuality::Smooth => VideoConfig {
                width: 1920,
                height: 1080,
                fps: 60,
                crf: 18,
                max_kbps: 30000,
                buffer_kbps: 6000,
                preset: "veryfast",
            },
        }
    }
}

/// Every quality preset passes validation.
pub proof fn presets_are_valid(quality: VideoQuality)
    ensures
        quality.preset().valid_dimensions(),
        quality.preset().valid_encoding(),
{
}

#[derive(Clone, Copy, Debug)]
pub struct VideoConfig {
    pub width: u32,
    pub height: u32,
    pub fps: u32,
    pub crf: u8,
    pub max_kbps: u32,
    pub buffer_kbps: u32,
    pub preset: &'static str,
}

impl VideoConfig {
    /// Even, not empty, and no larger than 3840 by 2160.
    pub open spec fn valid_dimensions(self) -> bool {
        &&& 0 < self.width <= 3840
        &&& 0 < self.height <= 2160
        &&& self.width % 2 == 0
        &&& self.height % 2 == 0
    }

    /// Frame rate, quality and bit rates that the encoders take.
    pub open spec fn valid_encoding(self) -> bool {
        &&& 1 <= self.fps <= 60
        &&& self.crf <= 51
        &&& self.max_kbps > 0
        &&& self.buffer_kbps > 0
    }

    pub fn validate(self) -> (r: Result<(), Failure>)
        ensures
            r == (if !self.valid_dimensions() {
                Err::<(), Failure>(Failure::VideoDimensions)
            } else if !self.valid_encoding() {
                Err(Failure::VideoEncoding)
            } else {
                Ok(())
            }),
    {
        if !(self.width > 0 && self.height > 0 && self.width <= 3840 && self.height <= 2160
            && self.width % 2 == 0 && self.height % 2 == 0) {
            return Err(Failure::VideoDimensions);
        }
        if !(1 <= self.fps && self.fps <= 60 && self.crf <= 51 && self.max_kbps > 0
            && self.buffer_kbps > 0) {
            return Err(Failure::VideoEncoding);
        }
        Ok(())
    }
}

#[derive(Clone, Copy, Debug, PartialEq, Eq, Structural)]
pub enum CaptureMode {
    Mirror,
    Extend,
}

impl Default for CaptureMode {
    fn default() -> (r: Self)
        ensures
            r == CaptureMode::Mirror,
    {
        CaptureMode::Mirror
    }
}

impl CaptureMode {
    pub open spec fn label_text(self) -> Seq<char> {
        match self {
            CaptureMode::Mirror => "Screen or window"@,
            CaptureMode::Extend => "Extended display"@,
        }
    }

    pub fn label(self) -> (r: &'static str)
        ensures
            r@ == self.label_text(),
    {
        match self {
            CaptureMode::Mirror => "Screen or window",
            CaptureMode::Extend => "Extended display",
        }
    }
}

/// Every even size from two pixels a side up to 3840 by 2160, every rate from one to sixty pictures
/// a second, every quality up to 51 and any bit rate but none can be asked for, and nothing else.
pub proof fn settings_in_range_are_accepted(config: VideoConfig)
    ensures
        config.valid_dimensions() <==> {
            &&& exists|w: int| config.width == #[trigger] (2 * w) && 1 <= w <= 1920
            &&& exists|h: int| config.height == #[trigger] (2 * h) && 1 <= h <= 1080
        },
        config.valid_encoding() <==> {
            &&& config.fps != 0 && config.fps < 61
            &&& config.crf < 52
            &&& config.max_kbps != 0 && config.buffer_kbps != 0
        },
{
    if config.valid_dimensions() {
        assert(config.width == 2 * (config.width as int / 2));
        assert(config.height == 2 * (config.height as int / 2));
    }
}

/// The label of a latency tells the lead in milliseconds.
pub proof fn labels_tell_the_lead(mode: LatencyMode)
    ensures
        exists|name: Seq<char>|
            mode.label_text() == #[trigger] (name + decimal(mode.lead_millis() as nat)) + " ms"@,
{
    reveal_strlit("Interactive · 50 ms");
    reveal_strlit("Responsive · 100 ms");
    reveal_strlit("Buffered · 500 ms");
    reveal_strlit(" ms");
    reveal_with_fuel(decimal, 4);
    let text = mode.label_text();
    let digits = decimal(mode.lead_millis() as nat);
    let name = text.take(text.len() - 3 - digits.len());
    assert(text =~= name + digits + " ms"@);
}

} // verus!
