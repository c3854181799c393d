//! The parts of a DASH manifest that the library reads. Attributes are held as
//! they are written.

use vstd::prelude::*;

use crate::text::opt_text;

verus! {

/// A manifest.
pub struct MpdDocument {
    /// `dynamic` for live streams.
    pub stream_type: Option<String>,
    pub media_presentation_duration: Option<String>,
    pub minimum_update_period: Option<String>,
    pub time_shift_buffer_depth: Option<String>,
    pub availability_start_time: Option<String>,
    pub periods: Vec<Period>,
}

/// A period.
pub struct Period {
    pub start: Option<String>,
    pub adaptation_sets: Vec<AdaptationSet>,
}

/// A set of interchangeable representations.
pub struct AdaptationSet {
    pub id: Option<String>,
    pub mime_type: Option<String>,
    pub codecs: Option<String>,
    pub bandwidth: Option<String>,
    pub lang: Option<String>,
    pub width: Option<String>,
    pub height: Option<String>,
    pub frame_rate: Option<String>,
    pub max_frame_rate: Option<String>,
    pub audio_sampling_rate: Option<String>,
    pub segment_template: Option<SegmentTemplate>,
    pub segment_list: Option<SegmentList>,
    pub content_protection: Vec<ContentProtection>,
    pub representations: Vec<Representation>,
}

/// One encoding of the content.
pub struct Representation {
    pub id: Option<String>,
    pub mime_type: Option<String>,
    pub codecs: Option<String>,
    pub bandwidth: Option<String>,
    pub lang: Option<String>,
    pub width: Option<String>,
    pub height: Option<String>,
    pub frame_rate: Option<String>,
    pub sar: Option<String>,
    pub audio_sampling_rate: Option<String>,
    /// The value of the audio channel configuration.
    pub audio_channels: Option<String>,
    pub base_url: Option<String>,
    pub segment_template: Option<SegmentTemplate>,
    pub segment_list: Option<SegmentList>,
    pub segment_base: Option<SegmentBase>,
    pub content_protection: Vec<ContentProtection>,
}

/// A rule for the URLs of segments.
pub struct SegmentTemplate {
    pub media: Option<String>,
    pub initialization: Option<String>,
    pub start_number: Option<String>,
    pub timescale: Option<String>,
    pub duration: Option<String>,
    pub presentation_time_offset: Option<String>,
    pub segment_timeline: Option<Vec<TimelinePoint>>,
}

/// A run of segments of equal duration.
pub struct TimelinePoint {
    pub t: Option<u64>,
    pub d: u64,
    pub r: Option<i64>,
}

/// A list of segments.
pub struct SegmentList {
    pub timescale: Option<String>,
    pub duration: Option<String>,
    pub initialization: Option<Initialization>,
    pub segment_urls: Vec<SegmentUrl>,
}

/// A segment of a list.
pub struct SegmentUrl {
    pub media: Option<String>,
    pub media_range: Option<String>,
}

/// A single file that holds all segments.
pub struct SegmentBase {
    pub initialization: Option<Initialization>,
    pub index_range: Option<String>,
}

/// Where the initialization segment is.
pub struct Initialization {
    pub source_url: Option<String>,
    pub range: Option<String>,
}

/// A content protection scheme.
pub struct ContentProtection {
    pub scheme_id_uri: Option<String>,
    /// The license URL of ClearKey.
    pub clearkey_laurl: Option<String>,
    /// The initialization data of Widevine.
    pub cenc_pssh: Option<String>,
    /// The license URL of PlayReady.
    pub ms_license_url: Option<String>,
    pub cenc_default_kid: Option<String>,
}

/// The duration of a segment, a number of seconds with a fraction, in the forms
/// in which it is used.
pub struct Extinf {
    /// As it is written, with three decimals.
    pub text: String,
    /// Whether it is above zero.
    pub positive: bool,
    /// The least whole number that is not below it.
    pub ceil: u64,
    /// For positive durations a number that orders them.
    pub key: u64,
}

/// A duration, by its text.
pub struct ExtinfView {
    pub text: Seq<char>,
    pub positive: bool,
    pub ceil: u64,
    pub key: u64,
}

impl View for Extinf {
    type V = ExtinfView;

    open spec fn view(&self) -> ExtinfView {
        ExtinfView {
            text: self.text@,
            positive: self.positive,
            ceil: self.ceil,
            key: self.key,
        }
    }
}

impl Clone for Extinf {
    fn clone(&self) -> (r: Self)
        ensures
            r == *self,
    {
        Extinf {
            text: self.text.clone(),
            positive: self.positive,
            ceil: self.ceil,
            key: self.key,
        }
    }
}

/// A segment.
pub struct MpdSegment {
    /// Its absolute URL.
    pub media: String,
    pub number: u64,
    pub extinf: Extinf,
    /// Its start, in units of the timescale.
    pub time: Option<u64>,
    /// Its duration, in units of the timescale.
    pub duration_mpd_timescale: Option<u64>,
    /// Its date and time, in ISO 8601.
    pub program_date_time: Option<String>,
    pub media_range: Option<String>,
    pub init_range: Option<String>,
    pub index_range: Option<String>,
}

/// A segment, by its texts.
pub struct SegmentView {
    pub media: Seq<char>,
    pub number: u64,
    pub extinf: ExtinfView,
    pub time: Option<u64>,
    pub duration_mpd_timescale: Option<u64>,
    pub program_date_time: Option<Seq<char>>,
    pub media_range: Option<Seq<char>>,
    pub init_range: Option<Seq<char>>,
    pub index_range: Option<Seq<char>>,
}

impl View for MpdSegment {
    type V = SegmentView;

    open spec fn view(&self) -> SegmentView {
        SegmentView {
            media: self.media@,
            number: self.number,
            extinf: self.extinf@,
            time: self.time,
            duration_mpd_timescale: self.duration_mpd_timescale,
            program_date_time: opt_text(self.program_date_time),
            media_range: opt_text(self.media_range),
            init_range: opt_text(self.init_range),
            index_range: opt_text(self.index_range),
        }
    }
}

/// Segments, by their texts.
pub open spec fn segment_views(v: Seq<MpdSegment>) -> Seq<SegmentView> {
    Seq::new(v.len(), |i: int| v[i]@)
}

/// A representation as a stream of its own.
pub struct MpdProfile {
    /// `{adaptation set}_{representation}_{bandwidth}`.
    pub id: String,
    /// The representation's own identifier.
    pub rep_id: String,
    pub mime_type: String,
    pub codecs: String,
    pub bandwidth: u64,
    pub lang: Option<String>,
    pub width: u32,
    pub height: u32,
    /// The frame rate as the manifest gives it.
    pub frame_rate: String,
    /// The frame rate as a playlist gives it, with three decimals. Whoever parses
    /// a manifest sets it from `frame_rate`.
    pub frame_rate_text: String,
    pub sar: String,
    pub audio_sampling_rate: Option<String>,
    pub channels: String,
    pub init_url: Option<String>,
    pub init_range: Option<String>,
    pub segments: Vec<MpdSegment>,
    pub segment_template_start_number: u64,
    pub segment_template_start_number_explicit: bool,
    pub segment_template_timescale: u64,
    pub nominal_duration_mpd_timescale: Option<u64>,
}

/// A profile, by its texts.
pub struct ProfileView {
    pub id: Seq<char>,
    pub rep_id: Seq<char>,
    pub mime_type: Seq<char>,
    pub codecs: Seq<char>,
    pub bandwidth: u64,
    pub lang: Option<Seq<char>>,
    pub width: u32,
    pub height: u32,
    pub frame_rate: Seq<char>,
    pub frame_rate_text: Seq<char>,
    pub sar: Seq<char>,
    pub audio_sampling_rate: Option<Seq<char>>,
    pub channels: Seq<char>,
    pub init_url: Option<Seq<char>>,
    pub init_range: Option<Seq<char>>,
    pub segments: Seq<SegmentView>,
    pub start_number: u64,
    pub start_number_explicit: bool,
    pub timescale: u64,
    pub nominal_duration: Option<u64>,
}

impl View for MpdProfile {
    type V = ProfileView;

    open spec fn view(&self) -> ProfileView {
        ProfileView {
            id: self.id@,
            rep_id: self.rep_id@,
            mime_type: self.mime_type@,
            codecs: self.codecs@,
            bandwidth: self.bandwidth,
            lang: opt_text(self.lang),
            width: self.width,
            height: self.height,
            frame_rate: self.frame_rate@,
            frame_rate_text: self.frame_rate_text@,
            sar: self.sar@,
            audio_sampling_rate: opt_text(self.audio_sampling_rate),
            channels: self.channels@,
            init_url: opt_text(self.init_url),
            init_range: opt_text(self.init_range),
            segments: segment_views(self.segments@),
            start_number: self.segment_template_start_number,
            start_number_explicit: self.segment_template_start_number_explicit,
            timescale: self.segment_template_timescale,
            nominal_duration: self.nominal_duration_mpd_timescale,
        }
    }
}

/// Profiles, by their texts.
pub open spec fn profile_views(v: Seq<MpdProfile>) -> Seq<ProfileView> {
    Seq::new(v.len(), |i: int| v[i]@)
}

impl MpdProfile {
    /// Whether the profile is one of video.
    pub fn is_video(&self) -> (r: bool)
        ensures
            r == crate::text::contains(self@.mime_type, "video"@),
    {
        crate::text::holds(self.mime_type.as_str(), "video")
    }

    /// Whether the profile is one of audio.
    pub fn is_audio(&self) -> (r: bool)
        ensures
            r == crate::text::contains(self@.mime_type, "audio"@),
    {
        crate::text::holds(self.mime_type.as_str(), "audio")
    }
}

} // verus!
