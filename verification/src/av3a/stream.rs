//! What a frame header says about its stream.
use vstd::prelude::*;

verus! {

/// Speaker configuration of a stream.
#[derive(Debug, Clone, Copy, PartialEq, Eq, Structural)]
#[allow(non_camel_case_types)]
pub enum ChannelConfig {
    Mono,
    Stereo,
    Mc5_1,
    Mc7_1,
    Mc10_2,
    Mc22_2,
    Mc4_0,
    Mc5_1_2,
    Mc5_1_4,
    Mc7_1_2,
    Mc7_1_4,
    Hoa1,
    Hoa2,
    Hoa3,
}

/// Coding profile of a stream. Profiles that are not channel-based are told apart only by
/// the name under which an error reports them.
#[derive(Debug, Clone)]
pub enum CodecProfile {
    ChannelBased,
    Other(String),
}

/// The part of a frame header that this crate reads.
#[derive(Debug, Clone)]
pub struct FrameHeader {
    pub profile: CodecProfile,
    pub channel_config: Option<ChannelConfig>,
    pub sample_rate: u32,
    pub channels: u16,
    pub bed_channels: u16,
    pub samples_per_channel: u32,
}

/// The name of the configuration.
pub open spec fn config_name(config: ChannelConfig) -> Seq<char> {
    match config {
        ChannelConfig::Mono => "Mono"@,
        ChannelConfig::Stereo => "Stereo"@,
        ChannelConfig::Mc5_1 => "Mc5_1"@,
        ChannelConfig::Mc7_1 => "Mc7_1"@,
        ChannelConfig::Mc10_2 => "Mc10_2"@,
        ChannelConfig::Mc22_2 => "Mc22_2"@,
        ChannelConfig::Mc4_0 => "Mc4_0"@,
        ChannelConfig::Mc5_1_2 => "Mc5_1_2"@,
        ChannelConfig::Mc5_1_4 => "Mc5_1_4"@,
        ChannelConfig::Mc7_1_2 => "Mc7_1_2"@,
        ChannelConfig::Mc7_1_4 => "Mc7_1_4"@,
        ChannelConfig::Hoa1 => "Hoa1"@,
        ChannelConfig::Hoa2 => "Hoa2"@,
        ChannelConfig::Hoa3 => "Hoa3"@,
    }
}

fn config_text(config: ChannelConfig) -> (r: &'static str)
    ensures
        r@ == config_name(config),
{
    match config {
        ChannelConfig::Mono => "Mono",
        ChannelConfig::Stereo => "Stereo",
        ChannelConfig::Mc5_1 => "Mc5_1",
        ChannelConfig::Mc7_1 => "Mc7_1",
        ChannelConfig::Mc10_2 => "Mc10_2",
        ChannelConfig::Mc22_2 => "Mc22_2",
        ChannelConfig::Mc4_0 => "Mc4_0",
        ChannelConfig::Mc5_1_2 => "Mc5_1_2",
        ChannelConfig::Mc5_1_4 => "Mc5_1_4",
        ChannelConfig::Mc7_1_2 => "Mc7_1_2",
        ChannelConfig::Mc7_1_4 => "Mc7_1_4",
        ChannelConfig::Hoa1 => "Hoa1",
        ChannelConfig::Hoa2 => "Hoa2",
        ChannelConfig::Hoa3 => "Hoa3",
    }
}

/// The configurations whose channel order the gain table follows.
pub open spec fn renderable(config: ChannelConfig) -> bool {
    config == ChannelConfig::Stereo || config == ChannelConfig::Mc7_1_4
}

/// Configurations covered by the currently verified static matrix.
///
/// The rows of the gain table follow the `4+7+0` channel order. Other layouts with the
/// same channel count use different speaker positions, so accepting them would produce
/// plausible audio with an incorrect spatial image. They are rejected until they get
/// their own matrix.
pub fn is_renderable(config: ChannelConfig) -> (r: bool)
    ensures
        r == renderable(config),
{
    matches!(config, ChannelConfig::Stereo | ChannelConfig::Mc7_1_4)
}

/// The BS.2051 layout name of a configuration.
pub open spec fn layout(config: ChannelConfig) -> Seq<char> {
    match config {
        ChannelConfig::Mono => "0+1+0"@,
        ChannelConfig::Stereo => "0+2+0"@,
        ChannelConfig::Mc5_1 => "0+5+0"@,
        ChannelConfig::Mc7_1 => "0+7+0"@,
        ChannelConfig::Mc10_2 => "2+10+0"@,
        ChannelConfig::Mc22_2 => "2+22+0"@,
        ChannelConfig::Mc4_0 => "0+4+0"@,
        ChannelConfig::Mc5_1_2 => "2+5+0"@,
        ChannelConfig::Mc5_1_4 => "4+5+0"@,
        ChannelConfig::Mc7_1_2 => "2+7+0"@,
        ChannelConfig::Mc7_1_4 => "4+7+0"@,
        ChannelConfig::Hoa1 => "N3D"@,
        ChannelConfig::Hoa2 => "SN3D"@,
        ChannelConfig::Hoa3 => "FuMa"@,
    }
}

/// BS.2051 layout name a configuration maps to.
pub fn layout_name(config: ChannelConfig) -> (r: &'static str)
    ensures
        r@ == layout(config),
{
    match config {
        ChannelConfig::Mono => "0+1+0",
        ChannelConfig::Stereo => "0+2+0",
        ChannelConfig::Mc5_1 => "0+5+0",
        ChannelConfig::Mc7_1 => "0+7+0",
        ChannelConfig::Mc10_2 => "2+10+0",
        ChannelConfig::Mc22_2 => "2+22+0",
        ChannelConfig::Mc4_0 => "0+4+0",
        ChannelConfig::Mc5_1_2 => "2+5+0",
        ChannelConfig::Mc5_1_4 => "4+5+0",
        ChannelConfig::Mc7_1_2 => "2+7+0",
        ChannelConfig::Mc7_1_4 => "4+7+0",
        ChannelConfig::Hoa1 => "N3D",
        ChannelConfig::Hoa2 => "SN3D",
        ChannelConfig::Hoa3 => "FuMa",
    }
}

/// Why a stream cannot be rendered.
#[derive(Debug, Clone)]
pub enum FormatError {
    /// The profile, by name, is not channel-based.
    Profile(String),
    /// A channel-based stream without a channel configuration.
    NoConfiguration,
    /// The gain table does not cover the configuration.
    Layout(ChannelConfig),
}

impl FormatError {
    /// The text that reports the error.
    pub open spec fn text(&self) -> Seq<char> {
        match self {
            FormatError::Profile(name) => "AV3A profile "@ + name@
                + " is not supported by the stereo renderer"@,
            FormatError::NoConfiguration =>
                "AV3A channel-based stream has no channel configuration"@,
            FormatError::Layout(config) => "Audio Vivid configuration "@ + config_name(*config)
                + " maps to layout "@ + layout(*config) + ", which the renderer does not define"@,
        }
    }

    /// Renders [`FormatError::text`].
    pub fn message(&self) -> (r: String)
        ensures
            r@ == self.text(),
    {
        match self {
            FormatError::Profile(name) => "AV3A profile ".to_owned().concat(name.as_str()).concat(
                " is not supported by the stereo renderer",
            ),
            FormatError::NoConfiguration => {
                "AV3A channel-based stream has no channel configuration".to_owned()
            },
            FormatError::Layout(config) => "Audio Vivid configuration ".to_owned().concat(
                config_text(*config),
            ).concat(" maps to layout ").concat(layout_name(*config)).concat(
                ", which the renderer does not define",
            ),
        }
    }
}

/// What stops the stream of `header` from being rendered, if anything does.
pub open spec fn format_fault(header: FrameHeader) -> Option<FormatError> {
    match (header.profile, header.channel_config) {
        (CodecProfile::Other(name), _) => Some(FormatError::Profile(name)),
        (CodecProfile::ChannelBased, None) => Some(FormatError::NoConfiguration),
        (CodecProfile::ChannelBased, Some(config)) => if renderable(config) {
            None
        } else {
            Some(FormatError::Layout(config))
        },
    }
}

/// Accepts the header of a channel-based stream in a renderable configuration.
pub fn check_format(header: &FrameHeader) -> (r: Result<(), FormatError>)
    ensures
        r is Ok <==> format_fault(*header) is None,
        r matches Err(e) ==> format_fault(*header) == Some(e),
{
    match &header.profile {
        CodecProfile::Other(name) => Err(FormatError::Profile(name.clone())),
        CodecProfile::ChannelBased => match header.channel_config {
            None => Err(FormatError::NoConfiguration),
            Some(config) => if is_renderable(config) {
                Ok(())
            } else {
                Err(FormatError::Layout(config))
            },
        },
    }
}

/// A stream can be rendered exactly where it is channel-based and stereo or 7.1.4; otherwise the
/// first thing that is wrong is named: the profile, a missing configuration, or the configuration.
pub proof fn only_stereo_and_seven_one_four(header: FrameHeader)
    ensures
        match format_fault(header) {
            None => header.profile is ChannelBased && (header.channel_config == Some(
                ChannelConfig::Stereo,
            ) || header.channel_config == Some(ChannelConfig::Mc7_1_4)),
            Some(FormatError::Profile(name)) => header.profile matches CodecProfile::Other(n) && n
                == name,
            Some(FormatError::NoConfiguration) => header.profile is ChannelBased
                && header.channel_config is None,
            Some(FormatError::Layout(config)) => {
                &&& header.profile is ChannelBased
                &&& header.channel_config == Some(config)
                &&& config != ChannelConfig::Stereo && config != ChannelConfig::Mc7_1_4
            },
        },
{
}

/// The configuration that a layout name is for: upper, middle and lower speakers for beds, the
/// normalisation for ambisonics.
pub proof fn layouts_are_those_of_the_configurations(config: ChannelConfig)
    ensures
        config is Mono ==> layout(config) == "0+1+0"@ && config_name(config) == "Mono"@,
        config is Stereo ==> layout(config) == "0+2+0"@ && config_name(config) == "Stereo"@,
        config is Mc5_1 ==> layout(config) == "0+5+0"@ && config_name(config) == "Mc5_1"@,
        config is Mc7_1 ==> layout(config) == "0+7+0"@ && config_name(config) == "Mc7_1"@,
        config is Mc10_2 ==> layout(config) == "2+10+0"@ && config_name(config) == "Mc10_2"@,
        config is Mc22_2 ==> layout(config) == "2+22+0"@ && config_name(config) == "Mc22_2"@,
        config is Mc4_0 ==> layout(config) == "0+4+0"@ && config_name(config) == "Mc4_0"@,
        config is Mc5_1_2 ==> layout(config) == "2+5+0"@ && config_name(config) == "Mc5_1_2"@,
        config is Mc5_1_4 ==> layout(config) == "4+5+0"@ && config_name(config) == "Mc5_1_4"@,
        config is Mc7_1_2 ==> layout(config) == "2+7+0"@ && config_name(config) == "Mc7_1_2"@,
        config is Mc7_1_4 ==> layout(config) == "4+7+0"@ && config_name(config) == "Mc7_1_4"@,
        config is Hoa1 ==> layout(config) == "N3D"@ && config_name(config) == "Hoa1"@,
        config is Hoa2 ==> layout(config) == "SN3D"@ && config_name(config) == "Hoa2"@,
        config is Hoa3 ==> layout(config) == "FuMa"@ && config_name(config) == "Hoa3"@,
{
}

/// What is said of a stream that cannot be rendered.
pub proof fn format_faults_are_said(name: String, config: ChannelConfig)
    ensures
        FormatError::Profile(name).text() == "AV3A profile "@ + name@
            + " is not supported by the stereo renderer"@,
        FormatError::NoConfiguration.text()
            == "AV3A channel-based stream has no channel configuration"@,
        FormatError::Layout(config).text() == "Audio Vivid configuration "@ + config_name(config)
            + " maps to layout "@ + layout(config) + ", which the renderer does not define"@,
{
}

} // verus!
