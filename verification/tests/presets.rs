use crunchy_cli_core::preset::{FFmpegPreset, PresetError};

fn strings(words: &[&str]) -> Vec<String> {
    words.iter().map(|w| w.to_string()).collect()
}

fn parsed(names: &[&str]) -> Vec<FFmpegPreset> {
    names.iter().map(|n| FFmpegPreset::parse(n).unwrap()).collect()
}

#[test]
fn h264_alone_encodes_in_software() {
    let (input, output) = FFmpegPreset::ffmpeg_presets(parsed(&["h264"])).unwrap();
    assert_eq!(input, strings(&[]));
    assert_eq!(output, strings(&["-c:v", "libx264", "-c:a", "copy", "-c:s", "copy"]));
}

#[test]
fn h265_alone_encodes_in_software() {
    let (input, output) = FFmpegPreset::ffmpeg_presets(vec![FFmpegPreset::H265]).unwrap();
    assert_eq!(input, strings(&[]));
    assert_eq!(output, strings(&["-c:v", "libx265", "-c:a", "copy", "-c:s", "copy"]));
}

#[test]
fn av1_alone_encodes_in_software() {
    let (input, output) = FFmpegPreset::ffmpeg_presets(vec![FFmpegPreset::Av1]).unwrap();
    assert_eq!(input, strings(&[]));
    assert_eq!(output, strings(&["-c:v", "libaom-av1", "-c:a", "copy", "-c:s", "copy"]));
}

#[test]
fn nvidia_with_h265_decodes_and_encodes_in_hardware() {
    let (input, output) = FFmpegPreset::ffmpeg_presets(parsed(&["nvidia", "h265"])).unwrap();
    assert_eq!(input, strings(&["-hwaccel", "cuvid", "-c:v", "h264_cuvid"]));
    assert_eq!(output, strings(&["-c:v", "hevc_nvenc", "-c:a", "copy", "-c:s", "copy"]));
}

#[test]
fn nvidia_with_h264_decodes_and_encodes_in_hardware() {
    let (input, output) =
        FFmpegPreset::ffmpeg_presets(vec![FFmpegPreset::H264, FFmpegPreset::Nvidia]).unwrap();
    assert_eq!(input, strings(&["-hwaccel", "cuvid", "-c:v", "h264_cuvid"]));
    assert_eq!(output, strings(&["-c:v", "h264_nvenc", "-c:a", "copy", "-c:s", "copy"]));
}

#[test]
fn nvidia_with_av1_is_a_conflict() {
    let result = FFmpegPreset::ffmpeg_presets(parsed(&["nvidia", "av1"]));
    assert_eq!(result, Err(PresetError::NvidiaWithAv1));
    assert_eq!(
        PresetError::NvidiaWithAv1.message(),
        "'nvidia' hardware acceleration preset is not available in combination with the 'av1' codec preset"
    );
    let reversed = FFmpegPreset::ffmpeg_presets(vec![FFmpegPreset::Av1, FFmpegPreset::Nvidia]);
    assert_eq!(reversed, Err(PresetError::NvidiaWithAv1));
}

#[test]
fn two_codecs_are_refused() {
    let result = FFmpegPreset::ffmpeg_presets(parsed(&["h264", "h265"]));
    let expected = PresetError::MultipleCodecs { found: vec![FFmpegPreset::H264, FFmpegPreset::H265] };
    assert_eq!(result, Err(expected));
    let error = result.unwrap_err();
    assert_eq!(error.message(), "Can only use one video codec, 2 found: h264, h265");
}

#[test]
fn two_codecs_are_refused_under_hardware_acceleration() {
    let result = FFmpegPreset::ffmpeg_presets(vec![
        FFmpegPreset::Av1,
        FFmpegPreset::Nvidia,
        FFmpegPreset::H264,
        FFmpegPreset::H265,
    ]);
    let error = result.unwrap_err();
    assert_eq!(
        error,
        PresetError::MultipleCodecs {
            found: vec![FFmpegPreset::Av1, FFmpegPreset::H264, FFmpegPreset::H265]
        }
    );
    assert_eq!(error.message(), "Can only use one video codec, 3 found: av1, h264, h265");
}

#[test]
fn the_same_codec_twice_is_refused() {
    let result = FFmpegPreset::ffmpeg_presets(vec![FFmpegPreset::H264, FFmpegPreset::H264]);
    assert_eq!(
        result,
        Err(PresetError::MultipleCodecs { found: vec![FFmpegPreset::H264, FFmpegPreset::H264] })
    );
}

#[test]
fn only_the_first_nvidia_is_taken_out() {
    let twice = FFmpegPreset::ffmpeg_presets(vec![FFmpegPreset::Nvidia, FFmpegPreset::Nvidia]);
    assert_eq!(twice, Ok((strings(&[]), strings(&["-c", "copy"]))));
    let with_codec = FFmpegPreset::ffmpeg_presets(vec![
        FFmpegPreset::Nvidia,
        FFmpegPreset::Nvidia,
        FFmpegPreset::H264,
    ]);
    let error = with_codec.unwrap_err();
    assert_eq!(
        error,
        PresetError::MultipleCodecs { found: vec![FFmpegPreset::Nvidia, FFmpegPreset::H264] }
    );
    assert_eq!(error.message(), "Can only use one video codec, 2 found: nvidia, h264");
}

#[test]
fn no_preset_copies_every_stream() {
    let (input, output) = FFmpegPreset::ffmpeg_presets(vec![]).unwrap();
    assert_eq!(input, strings(&[]));
    assert_eq!(output, strings(&["-c", "copy"]));
}

#[test]
fn nvidia_alone_copies_every_stream() {
    let (input, output) = FFmpegPreset::ffmpeg_presets(vec![FFmpegPreset::Nvidia]).unwrap();
    assert_eq!(input, strings(&[]));
    assert_eq!(output, strings(&["-c", "copy"]));
}

#[test]
fn parse_knows_every_name_and_alias() {
    assert_eq!(FFmpegPreset::parse("nvidia"), Ok(FFmpegPreset::Nvidia));
    assert_eq!(FFmpegPreset::parse("av1"), Ok(FFmpegPreset::Av1));
    assert_eq!(FFmpegPreset::parse("h265"), Ok(FFmpegPreset::H265));
    assert_eq!(FFmpegPreset::parse("h.265"), Ok(FFmpegPreset::H265));
    assert_eq!(FFmpegPreset::parse("hevc"), Ok(FFmpegPreset::H265));
    assert_eq!(FFmpegPreset::parse("h264"), Ok(FFmpegPreset::H264));
    assert_eq!(FFmpegPreset::parse("h.264"), Ok(FFmpegPreset::H264));
}

#[test]
fn parse_ignores_the_case_of_letters() {
    assert_eq!(FFmpegPreset::parse("NVIDIA"), Ok(FFmpegPreset::Nvidia));
    assert_eq!(FFmpegPreset::parse("Av1"), Ok(FFmpegPreset::Av1));
    assert_eq!(FFmpegPreset::parse("HEVC"), Ok(FFmpegPreset::H265));
    assert_eq!(FFmpegPreset::parse("H.265"), Ok(FFmpegPreset::H265));
    assert_eq!(FFmpegPreset::parse("H264"), Ok(FFmpegPreset::H264));
}

#[test]
fn parse_refuses_unknown_names_and_quotes_them() {
    assert_eq!(FFmpegPreset::parse("x264"), Err("'x264' is not a valid ffmpeg preset".to_string()));
    assert_eq!(FFmpegPreset::parse("X264"), Err("'X264' is not a valid ffmpeg preset".to_string()));
    assert_eq!(FFmpegPreset::parse(""), Err("'' is not a valid ffmpeg preset".to_string()));
    assert_eq!(
        FFmpegPreset::parse(" h264"),
        Err("' h264' is not a valid ffmpeg preset".to_string())
    );
    assert_eq!(FFmpegPreset::parse("h26"), Err("'h26' is not a valid ffmpeg preset".to_string()));
}

#[test]
fn from_name_matches_lowercase_names_only() {
    assert_eq!(FFmpegPreset::from_name("hevc"), Some(FFmpegPreset::H265));
    assert_eq!(FFmpegPreset::from_name("h.264"), Some(FFmpegPreset::H264));
    assert_eq!(FFmpegPreset::from_name("HEVC"), None);
    assert_eq!(FFmpegPreset::from_name("Nvidia"), None);
    assert_eq!(FFmpegPreset::from_name(""), None);
}

#[test]
fn all_lists_the_four_presets() {
    let all: Vec<FFmpegPreset> =
        vec![FFmpegPreset::Nvidia, FFmpegPreset::Av1, FFmpegPreset::H265, FFmpegPreset::H264];
    assert_eq!(FFmpegPreset::all(), all);
}

#[test]
fn names_parse_back_to_their_presets() {
    for preset in FFmpegPreset::all() {
        assert_eq!(FFmpegPreset::parse(&preset.to_string()), Ok(preset));
    }
    assert_eq!(FFmpegPreset::Nvidia.to_string(), "nvidia");
    assert_eq!(FFmpegPreset::Av1.to_string(), "av1");
    assert_eq!(FFmpegPreset::H265.to_string(), "h265");
    assert_eq!(FFmpegPreset::H264.to_string(), "h264");
}

#[test]
fn descriptions_are_worded_as_documented() {
    assert_eq!(
        FFmpegPreset::Nvidia.description(),
        "If you're have a nvidia card, use hardware / gpu accelerated video processing if available"
    );
    assert_eq!(
        FFmpegPreset::Av1.description(),
        "Encode the video(s) with the av1 codec. Hardware acceleration is currently not possible with this"
    );
    assert_eq!(FFmpegPreset::H265.description(), "Encode the video(s) with the h265 codec");
    assert_eq!(FFmpegPreset::H264.description(), "Encode the video(s) with the h264 codec");
}
