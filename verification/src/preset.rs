//! Encoding presets and the ffmpeg arguments they stand for.
//!
//! A preset is either the hardware acceleration preset (`nvidia`) or a codec
//! preset (`av1`, `h265`, `h264`). At most one codec preset may be chosen; the
//! hardware preset may accompany `h265` and `h264`, but not `av1`.

use vstd::prelude::*;
use vstd::string::StringExecFns;
use crate::text::{decimal, decimal_digits, same_text, texts};

verus! {

/// A named, predefined set of transcoding flags.
#[derive(Clone, Copy, Debug, PartialEq, Eq, Structural)]
pub enum FFmpegPreset {
    /// Hardware accelerated processing on an Nvidia card.
    Nvidia,
    /// Encode with the av1 codec.
    Av1,
    /// Encode with the h265 codec.
    H265,
    /// Encode with the h264 codec.
    H264,
}

/// Why a list of presets cannot be turned into ffmpeg arguments.
#[derive(Debug, PartialEq, Eq)]
pub enum PresetError {
    /// More than one preset is left once the hardware preset is taken out.
    /// `found` holds those that are left, in the order they were given.
    MultipleCodecs { found: Vec<FFmpegPreset> },
    /// The hardware preset was combined with `av1`, which it cannot
    /// accelerate.
    NvidiaWithAv1,
}

/// What `str::to_lowercase` returns for the text `s`.
pub uninterp spec fn lowercase(s: Seq<char>) -> Seq<char>;

/// Calls `str::to_lowercase` of std, which maps a string slice to its
/// lowercase equivalent as Unicode defines it. The result depends on the
/// characters of `s` alone; the contract gives it the name [`lowercase`].
#[verifier::external_body]
fn to_lowercase(s: &str) -> (r: String)
    ensures
        r@ == lowercase(s@),
{
    s.to_lowercase()
}

/// The preset that the lowercase name `name` stands for, if any. `h265` may
/// also be written `h.265` or `hevc`, and `h264` also `h.264`.
pub open spec fn preset_named(name: Seq<char>) -> Option<FFmpegPreset> {
    if name == "nvidia"@ {
        Some(FFmpegPreset::Nvidia)
    } else if name == "av1"@ {
        Some(FFmpegPreset::Av1)
    } else if name == "h265"@ || name == "h.265"@ || name == "hevc"@ {
        Some(FFmpegPreset::H265)
    } else if name == "h264"@ || name == "h.264"@ {
        Some(FFmpegPreset::H264)
    } else {
        None
    }
}

/// The message for a text that names no preset.
pub open spec fn unknown_preset_text(s: Seq<char>) -> Seq<char> {
    "'"@ + s + "' is not a valid ffmpeg preset"@
}

/// `presets` without the first occurrence of `preset` (unchanged if there is
/// none).
pub open spec fn without_first(presets: Seq<FFmpegPreset>, preset: FFmpegPreset) -> Seq<
    FFmpegPreset,
>
    decreases presets.len(),
{
    if presets.len() == 0 {
        presets
    } else if presets[0] == preset {
        presets.drop_first()
    } else {
        seq![presets[0]] + without_first(presets.drop_first(), preset)
    }
}

/// The names of `presets`, separated by a comma and a space.
pub open spec fn joined_names(presets: Seq<FFmpegPreset>) -> Seq<char>
    decreases presets.len(),
{
    if presets.len() == 0 {
        Seq::empty()
    } else if presets.len() == 1 {
        presets[0].name()
    } else {
        joined_names(presets.drop_last()) + ", "@ + presets.last().name()
    }
}

/// The video encoder that `codec` selects, with or without hardware
/// acceleration. There is none for the hardware preset itself, nor for `av1`
/// under hardware acceleration.
pub open spec fn encoder(nvidia: bool, codec: FFmpegPreset) -> Option<Seq<char>> {
    match codec {
        FFmpegPreset::Nvidia => None,
        FFmpegPreset::Av1 => if nvidia {
            None
        } else {
            Some("libaom-av1"@)
        },
        FFmpegPreset::H265 => if nvidia {
            Some("hevc_nvenc"@)
        } else {
            Some("libx265"@)
        },
        FFmpegPreset::H264 => if nvidia {
            Some("h264_nvenc"@)
        } else {
            Some("libx264"@)
        },
    }
}

/// The arguments that precede ffmpeg's input: hardware decoding, where the
/// hardware preset accompanies a codec it can accelerate.
pub open spec fn input_flags(nvidia: bool, codecs: Seq<FFmpegPreset>) -> Seq<Seq<char>> {
    if nvidia && codecs.len() == 1 && (codecs[0] == FFmpegPreset::H265 || codecs[0]
        == FFmpegPreset::H264) {
        seq!["-hwaccel"@, "cuvid"@, "-c:v"@, "h264_cuvid"@]
    } else {
        Seq::empty()
    }
}

/// The arguments that precede ffmpeg's output: the video encoder, with audio
/// and subtitles copied, or a plain copy of every stream where no encoder is
/// selected.
pub open spec fn output_flags(nvidia: bool, codecs: Seq<FFmpegPreset>) -> Seq<Seq<char>> {
    if codecs.len() == 1 && encoder(nvidia, codecs[0]) is Some {
        seq!["-c:v"@, encoder(nvidia, codecs[0])->0, "-c:a"@, "copy"@, "-c:s"@, "copy"@]
    } else {
        seq!["-c"@, "copy"@]
    }
}

/// Whether `presets` asks for hardware acceleration of `av1`.
pub open spec fn accelerates_av1(presets: Seq<FFmpegPreset>) -> bool {
    presets.contains(FFmpegPreset::Nvidia) && without_first(presets, FFmpegPreset::Nvidia)
        == seq![FFmpegPreset::Av1]
}

impl PresetError {
    /// The message that describes the error.
    pub open spec fn text(self) -> Seq<char> {
        match self {
            PresetError::MultipleCodecs { found } => "Can only use one video codec, "@
                + decimal_digits(found@.len()) + " found: "@ + joined_names(found@),
            PresetError::NvidiaWithAv1 =>
                "'nvidia' hardware acceleration preset is not available in combination with the 'av1' codec preset"@,
        }
    }

    /// Renders the error for the user.
    pub fn message(&self) -> (s: String)
        ensures
            s@ == self.text(),
    {
        match self {
            PresetError::MultipleCodecs { found } => {
                let mut s: String = "Can only use one video codec, ".to_owned();
                let count: String = decimal(found.len());
                s.append(count.as_str());
                s.append(" found: ");
                let names: String = join_names(found);
                s.append(names.as_str());
                s
            },
            PresetError::NvidiaWithAv1 => {
                "'nvidia' hardware acceleration preset is not available in combination with the 'av1' codec preset".to_owned()
            },
        }
    }
}

/// Joins the names of `presets` with a comma and a space.
fn join_names(presets: &Vec<FFmpegPreset>) -> (s: String)
    ensures
        s@ == joined_names(presets@),
{
    let mut s: String = String::new();
    let mut i: usize = 0;
    while i < presets.len()
        invariant
            i <= presets.len(),
            s@ == joined_names(presets@.take(i as int)),
        decreases presets.len() - i,
    {
        if i > 0 {
            s.append(", ");
        }
        let name: String = presets[i].to_string();
        s.append(name.as_str());
        proof {
            let before = presets@.take(i as int);
            let now = presets@.take(i + 1);
            assert(now.drop_last() =~= before);
            assert(s@ =~= joined_names(now));
        }
        i += 1;
    }
    assert(presets@.take(i as int) =~= presets@);
    s
}

/// Removes the first occurrence of `preset`, if there is one, and says
/// whether there was.
fn preset_check_remove(presets: &mut Vec<FFmpegPreset>, preset: FFmpegPreset) -> (found: bool)
    ensures
        found == old(presets)@.contains(preset),
        final(presets)@ == without_first(old(presets)@, preset),
{
    let mut i: usize = 0;
    while i < presets.len()
        invariant
            i <= presets.len(),
            *presets == *old(presets),
            forall|j: int| 0 <= j < i ==> presets@[j] != preset,
        decreases presets.len() - i,
    {
        if presets[i] == preset {
            proof {
                lemma_without_first_at(presets@, preset, i as int);
            }
            presets.remove(i);
            return true;
        }
        i += 1;
    }
    proof {
        lemma_without_first_absent(presets@, preset);
    }
    false
}

/// Removing the first occurrence removes the element at the first position
/// that holds `preset`.
proof fn lemma_without_first_at(presets: Seq<FFmpegPreset>, preset: FFmpegPreset, i: int)
    requires
        0 <= i < presets.len(),
        presets[i] == preset,
        forall|j: int| 0 <= j < i ==> presets[j] != preset,
    ensures
        without_first(presets, preset) == presets.remove(i),
    decreases i,
{
    if i == 0 {
        assert(presets.remove(0) =~= presets.drop_first());
    } else {
        let rest = presets.drop_first();
        assert(presets[0] != preset);
        assert(rest[i - 1] == preset);
        assert forall|j: int| 0 <= j < i - 1 implies rest[j] != preset by {
            assert(rest[j] == presets[j + 1]);
        }
        lemma_without_first_at(rest, preset, i - 1);
        assert(seq![presets[0]] + rest.remove(i - 1) =~= presets.remove(i));
    }
}

/// A list that does not hold `preset` is left as it is.
proof fn lemma_without_first_absent(presets: Seq<FFmpegPreset>, preset: FFmpegPreset)
    requires
        forall|j: int| 0 <= j < presets.len() ==> presets[j] != preset,
    ensures
        without_first(presets, preset) == presets,
        !presets.contains(preset),
    decreases presets.len(),
{
    if presets.len() > 0 {
        let rest = presets.drop_first();
        assert forall|j: int| 0 <= j < rest.len() implies rest[j] != preset by {
            assert(rest[j] == presets[j + 1]);
        }
        lemma_without_first_absent(rest, preset);
        assert(seq![presets[0]] + rest =~= presets);
    }
}

impl FFmpegPreset {
    /// The name by which the preset is chosen.
    pub open spec fn name(self) -> Seq<char> {
        match self {
            FFmpegPreset::Nvidia => "nvidia"@,
            FFmpegPreset::Av1 => "av1"@,
            FFmpegPreset::H265 => "h265"@,
            FFmpegPreset::H264 => "h264"@,
        }
    }

    /// What the preset does, in a sentence.
    pub open spec fn description_text(self) -> Seq<char> {
        match self {
            FFmpegPreset::Nvidia =>
                "If you're have a nvidia card, use hardware / gpu accelerated video processing if available"@,
            FFmpegPreset::Av1 =>
                "Encode the video(s) with the av1 codec. Hardware acceleration is currently not possible with this"@,
            FFmpegPreset::H265 => "Encode the video(s) with the h265 codec"@,
            FFmpegPreset::H264 => "Encode the video(s) with the h264 codec"@,
        }
    }

    /// The preset's name.
    pub fn to_string(&self) -> (s: String)
        ensures
            s@ == self.name(),
    {
        match self {
            FFmpegPreset::Nvidia => "nvidia".to_owned(),
            FFmpegPreset::Av1 => "av1".to_owned(),
            FFmpegPreset::H265 => "h265".to_owned(),
            FFmpegPreset::H264 => "h264".to_owned(),
        }
    }

    /// Every preset, the hardware preset first.
    pub fn all() -> (presets: Vec<FFmpegPreset>)
        ensures
            presets@ == seq![
                FFmpegPreset::Nvidia,
                FFmpegPreset::Av1,
                FFmpegPreset::H265,
                FFmpegPreset::H264,
            ],
    {
        let mut presets: Vec<FFmpegPreset> = Vec::new();
        presets.push(FFmpegPreset::Nvidia);
        presets.push(FFmpegPreset::Av1);
        presets.push(FFmpegPreset::H265);
        presets.push(FFmpegPreset::H264);
        assert(presets@ =~= seq![
            FFmpegPreset::Nvidia,
            FFmpegPreset::Av1,
            FFmpegPreset::H265,
            FFmpegPreset::H264,
        ]);
        presets
    }

    /// A sentence that describes the preset.
    pub fn description(self) -> (s: String)
        ensures
            s@ == self.description_text(),
    {
        match self {
            FFmpegPreset::Nvidia => {
                "If you're have a nvidia card, use hardware / gpu accelerated video processing if available".to_owned()
            },
            FFmpegPreset::Av1 => {
                "Encode the video(s) with the av1 codec. Hardware acceleration is currently not possible with this".to_owned()
            },
            FFmpegPreset::H265 => "Encode the video(s) with the h265 codec".to_owned(),
            FFmpegPreset::H264 => "Encode the video(s) with the h264 codec".to_owned(),
        }
    }

    /// The preset with the lowercase name `name`: `Some` exactly for the
    /// names that [`preset_named`] knows.
    pub fn from_name(name: &str) -> (preset: Option<FFmpegPreset>)
        ensures
            preset == preset_named(name@),
    {
        if same_text(name, "nvidia") {
            Some(FFmpegPreset::Nvidia)
        } else if same_text(name, "av1") {
            Some(FFmpegPreset::Av1)
        } else if same_text(name, "h265") || same_text(name, "h.265") || same_text(name, "hevc") {
            Some(FFmpegPreset::H265)
        } else if same_text(name, "h264") || same_text(name, "h.264") {
            Some(FFmpegPreset::H264)
        } else {
            None
        }
    }

    /// Reads a preset from its name, whatever the case of its letters. A text
    /// whose lowercase form names no preset is answered with a message that
    /// quotes it.
    pub fn parse(s: &str) -> (result: Result<FFmpegPreset, String>)
        ensures
            match result {
                Ok(preset) => preset_named(lowercase(s@)) == Some(preset),
                Err(message) => preset_named(lowercase(s@)) is None && message@
                    == unknown_preset_text(s@),
            },
    {
        let lowered: String = to_lowercase(s);
        match FFmpegPreset::from_name(lowered.as_str()) {
            Some(preset) => Ok(preset),
            None => {
                let mut message: String = "'".to_owned();
                message.append(s);
                message.append("' is not a valid ffmpeg preset");
                Err(message)
            },
        }
    }

    /// Turns a list of presets into the arguments for ffmpeg: those that go
    /// before its input, and those that go before its output.
    ///
    /// The first `Nvidia` of the list asks for hardware acceleration and is
    /// taken out. If more than one preset is left, the list is refused with
    /// those that are left; if `Av1` alone is left under hardware
    /// acceleration, it is refused as well. Otherwise the arguments are those
    /// of [`input_flags`] and [`output_flags`].
    pub fn ffmpeg_presets(presets: Vec<FFmpegPreset>) -> (result: Result<
        (Vec<String>, Vec<String>),
        PresetError,
    >)
        ensures
            match result {
                Ok((input, output)) => {
                    &&& without_first(presets@, FFmpegPreset::Nvidia).len() <= 1
                    &&& !accelerates_av1(presets@)
                    &&& texts(input@) == input_flags(
                        presets@.contains(FFmpegPreset::Nvidia),
                        without_first(presets@, FFmpegPreset::Nvidia),
                    )
                    &&& texts(output@) == output_flags(
                        presets@.contains(FFmpegPreset::Nvidia),
                        without_first(presets@, FFmpegPreset::Nvidia),
                    )
                },
                Err(PresetError::MultipleCodecs { found }) => {
                    &&& without_first(presets@, FFmpegPreset::Nvidia).len() > 1
                    &&& found@ == without_first(presets@, FFmpegPreset::Nvidia)
                },
                Err(PresetError::NvidiaWithAv1) => accelerates_av1(presets@),
            },
    {
        let mut presets = presets;
        let nvidia: bool = preset_check_remove(&mut presets, FFmpegPreset::Nvidia);
        if presets.len() > 1 {
            return Err(PresetError::MultipleCodecs { found: presets });
        }
        let mut input: Vec<String> = Vec::new();
        let mut output: Vec<String> = Vec::new();
        if presets.len() == 1 {
            let codec: FFmpegPreset = presets[0];
            assert(presets@ =~= seq![codec]);
            if nvidia {
                match codec {
                    FFmpegPreset::Av1 => {
                        return Err(PresetError::NvidiaWithAv1);
                    },
                    FFmpegPreset::H265 => {
                        push_hardware_decoding(&mut input);
                        push_encoder(&mut output, "hevc_nvenc");
                    },
                    FFmpegPreset::H264 => {
                        push_hardware_decoding(&mut input);
                        push_encoder(&mut output, "h264_nvenc");
                    },
                    FFmpegPreset::Nvidia => {},
                }
            } else {
                match codec {
                    FFmpegPreset::Av1 => {
                        push_encoder(&mut output, "libaom-av1");
                    },
                    FFmpegPreset::H265 => {
                        push_encoder(&mut output, "libx265");
                    },
                    FFmpegPreset::H264 => {
                        push_encoder(&mut output, "libx264");
                    },
                    FFmpegPreset::Nvidia => {},
                }
            }
        }
        if output.is_empty() {
            output.push("-c".to_owned());
            output.push("copy".to_owned());
        } else {
            output.push("-c:a".to_owned());
            output.push("copy".to_owned());
            output.push("-c:s".to_owned());
            output.push("copy".to_owned());
        }
        assert(texts(input@) =~= input_flags(nvidia, presets@));
        assert(texts(output@) =~= output_flags(nvidia, presets@));
        Ok((input, output))
    }
}

/// Appends the arguments that switch on hardware decoding.
fn push_hardware_decoding(input: &mut Vec<String>)
    requires
        old(input)@.len() == 0,
    ensures
        texts(final(input)@) == seq!["-hwaccel"@, "cuvid"@, "-c:v"@, "h264_cuvid"@],
{
    input.push("-hwaccel".to_owned());
    input.push("cuvid".to_owned());
    input.push("-c:v".to_owned());
    input.push("h264_cuvid".to_owned());
    assert(texts(input@) =~= seq!["-hwaccel"@, "cuvid"@, "-c:v"@, "h264_cuvid"@]);
}

/// Appends the arguments that select the video encoder `name`.
fn push_encoder(output: &mut Vec<String>, name: &str)
    requires
        old(output)@.len() == 0,
    ensures
        final(output)@.len() == 2,
        texts(final(output)@) == seq!["-c:v"@, name@],
{
    output.push("-c:v".to_owned());
    output.push(name.to_owned());
    assert(texts(output@) =~= seq!["-c:v"@, name@]);
}

} // verus!
