//! Why an operation was refused.

use vstd::prelude::*;

verus! {

#[derive(Clone, Copy, Debug, PartialEq, Eq, Structural)]
pub enum Failure {
    PcmLength,
    VideoDimensions,
    VideoEncoding,
    PacketMetadata,
    PacketLength,
    PacketLimit,
    NotAnnexB,
    LeadingData,
    EmptyUnit,
    NoUnits,
    NoPicture,
    NoInitialKeyframe,
    Pin,
    NoReceiverKey,
    Rejected,
    NoTimestamp,
    Timestamp,
    ClockOverflow,
    PropertyList,
    FrameTooLarge,
    VideoEncryption,
    AudioEncryption,
    ParameterSets,
    NoParameterSets,
    VideoNonces,
    AudioNonces,
    NoVideo,
    NoAudio,
    CaptureStopped,
    NotVerified,
    NoLocalAddress,
    NoTimeline,
    NoStream,
    NoAudioPort,
    AudioPort,
    NoVideoPort,
    VideoPort,
    SetupOver,
    EventFrame,
    EventLimit,
    EventHeaders,
    EventText,
    EventNumber,
    EventBody,
    EventSequence,
    NoSources,
    NoVirtualMonitors,
    NotOneSource,
    NotVirtual,
    SelectionOver,
    NoReceiver,
    NotConnected,
    NoScreen,
    LostTrack,
    WorkerUnavailable,
}

impl Failure {
    /// What the user is told.
    pub open spec fn text(self) -> Seq<char> {
        match self {
            Failure::PcmLength => "Expected 352 stereo PCM frames"@,
            Failure::VideoDimensions => "Invalid video dimensions"@,
            Failure::VideoEncoding => "Invalid video encoding settings"@,
            Failure::PacketMetadata => "Invalid encoder packet metadata"@,
            Failure::PacketLength => "Invalid encoded packet size"@,
            Failure::PacketLimit => "Encoded packet exceeds size limit"@,
            Failure::NotAnnexB => "Encoder returned non-Annex-B video"@,
            Failure::LeadingData => "Unexpected data before H.264 start code"@,
            Failure::EmptyUnit => "Empty H.264 NAL unit"@,
            Failure::NoUnits => "Encoded packet has no video NAL units"@,
            Failure::NoPicture => "Encoder returned no picture"@,
            Failure::NoInitialKeyframe => "Encoder omitted initial SPS, PPS or keyframe"@,
            Failure::Pin => "Enter the four digits displayed on Apple TV"@,
            Failure::NoReceiverKey => "Receiver omitted its identity key"@,
            Failure::Rejected => "Receiver rejected the request"@,
            Failure::NoTimestamp => "Apple TV did not provide a media clock timestamp"@,
            Failure::Timestamp => "Apple TV provided an invalid media clock timestamp"@,
            Failure::ClockOverflow => "Media clock overflow"@,
            Failure::PropertyList => "Invalid property list"@,
            Failure::FrameTooLarge => "Video frame too large"@,
            Failure::VideoEncryption => "Video encryption failed"@,
            Failure::AudioEncryption => "Audio encryption failed"@,
            Failure::ParameterSets => "Invalid H.264 parameter sets"@,
            Failure::NoParameterSets => "Encoder did not provide H.264 SPS/PPS"@,
            Failure::VideoNonces => "Video nonce exhausted"@,
            Failure::AudioNonces => "Audio nonce exhausted"@,
            Failure::NoVideo => "No video frames arrived from the selected screen; check the sharing permission and capture pipeline"@,
            Failure::NoAudio => "No system audio frames arrived from PipeWire"@,
            Failure::CaptureStopped => "Capture tasks stopped"@,
            Failure::NotVerified => "Pair verification is required before mirroring"@,
            Failure::NoLocalAddress => "Control socket has no local address"@,
            Failure::NoTimeline => "Receiver did not negotiate PTP timeline"@,
            Failure::NoStream => "SETUP omitted expected stream"@,
            Failure::NoAudioPort => "SETUP omitted audio port"@,
            Failure::AudioPort => "Invalid audio port"@,
            Failure::NoVideoPort => "Receiver omitted video port"@,
            Failure::VideoPort => "Invalid video port"@,
            Failure::SetupOver => "Stream setup has already failed"@,
            Failure::EventFrame => "Invalid event frame length"@,
            Failure::EventLimit => "Event request exceeds limit"@,
            Failure::EventHeaders => "Event headers exceed limit"@,
            Failure::EventText => "Event headers are not valid UTF-8"@,
            Failure::EventNumber => "Event header holds an invalid number"@,
            Failure::EventBody => "Event body exceeds limit"@,
            Failure::EventSequence => "Event omitted CSeq"@,
            Failure::NoSources => "No supported screen sources are available"@,
            Failure::NoVirtualMonitors => "This desktop does not support virtual monitors through its screen-sharing portal"@,
            Failure::NotOneSource => "Select exactly one screen or window, then press Share"@,
            Failure::NotVirtual => "The desktop did not return a virtual monitor; extended display was not created"@,
            Failure::SelectionOver => "Screen selection has already ended"@,
            Failure::NoReceiver => "Select a receiver first"@,
            Failure::NotConnected => "Connect to Apple TV first"@,
            Failure::NoScreen => "Choose a screen first"@,
            Failure::LostTrack => "AirPlay worker lost track of its work"@,
            Failure::WorkerUnavailable => "AirPlay worker is busy or has stopped"@,
        }
    }

    /// What to tell the user.
    pub fn message(self) -> (r: &'static str)
        ensures
            r@ == self.text(),
    {
        match self {
            Failure::PcmLength => "Expected 352 stereo PCM frames",
            Failure::VideoDimensions => "Invalid video dimensions",
            Failure::VideoEncoding => "Invalid video encoding settings",
            Failure::PacketMetadata => "Invalid encoder packet metadata",
            Failure::PacketLength => "Invalid encoded packet size",
            Failure::PacketLimit => "Encoded packet exceeds size limit",
            Failure::NotAnnexB => "Encoder returned non-Annex-B video",
            Failure::LeadingData => "Unexpected data before H.264 start code",
            Failure::EmptyUnit => "Empty H.264 NAL unit",
            Failure::NoUnits => "Encoded packet has no video NAL units",
            Failure::NoPicture => "Encoder returned no picture",
            Failure::NoInitialKeyframe => "Encoder omitted initial SPS, PPS or keyframe",
            Failure::Pin => "Enter the four digits displayed on Apple TV",
            Failure::NoReceiverKey => "Receiver omitted its identity key",
            Failure::Rejected => "Receiver rejected the request",
            Failure::NoTimestamp => "Apple TV did not provide a media clock timestamp",
            Failure::Timestamp => "Apple TV provided an invalid media clock timestamp",
            Failure::ClockOverflow => "Media clock overflow",
            Failure::PropertyList => "Invalid property list",
            Failure::FrameTooLarge => "Video frame too large",
            Failure::VideoEncryption => "Video encryption failed",
            Failure::AudioEncryption => "Audio encryption failed",
            Failure::ParameterSets => "Invalid H.264 parameter sets",
            Failure::NoParameterSets => "Encoder did not provide H.264 SPS/PPS",
            Failure::VideoNonces => "Video nonce exhausted",
            Failure::AudioNonces => "Audio nonce exhausted",
            Failure::NoVideo => "No video frames arrived from the selected screen; check the sharing permission and capture pipeline",
            Failure::NoAudio => "No system audio frames arrived from PipeWire",
            Failure::CaptureStopped => "Capture tasks stopped",
            Failure::NotVerified => "Pair verification is required before mirroring",
            Failure::NoLocalAddress => "Control socket has no local address",
            Failure::NoTimeline => "Receiver did not negotiate PTP timeline",
            Failure::NoStream => "SETUP omitted expected stream",
            Failure::NoAudioPort => "SETUP omitted audio port",
            Failure::AudioPort => "Invalid audio port",
            Failure::NoVideoPort => "Receiver omitted video port",
            Failure::VideoPort => "Invalid video port",
            Failure::SetupOver => "Stream setup has already failed",
            Failure::EventFrame => "Invalid event frame length",
            Failure::EventLimit => "Event request exceeds limit",
            Failure::EventHeaders => "Event headers exceed limit",
            Failure::EventText => "Event headers are not valid UTF-8",
            Failure::EventNumber => "Event header holds an invalid number",
            Failure::EventBody => "Event body exceeds limit",
            Failure::EventSequence => "Event omitted CSeq",
            Failure::NoSources => "No supported screen sources are available",
            Failure::NoVirtualMonitors => "This desktop does not support virtual monitors through its screen-sharing portal",
            Failure::NotOneSource => "Select exactly one screen or window, then press Share",
            Failure::NotVirtual => "The desktop did not return a virtual monitor; extended display was not created",
            Failure::SelectionOver => "Screen selection has already ended",
            Failure::NoReceiver => "Select a receiver first",
            Failure::NotConnected => "Connect to Apple TV first",
            Failure::NoScreen => "Choose a screen first",
            Failure::LostTrack => "AirPlay worker lost track of its work",
            Failure::WorkerUnavailable => "AirPlay worker is busy or has stopped",
        }
    }
}

} // verus!
