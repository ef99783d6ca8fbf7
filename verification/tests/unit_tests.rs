use sound_manager::migrate::{billfish_folder_path, MigratorResult};
use sound_manager::player::{Player, PlayerMode};
use sound_manager::waveform::{
    envelope_groups, first_nonzero_index, mix_frames, transit_step, WaveformGenerator,
    SAMPLING_STEP,
};
use sound_manager::{is_audio_file, is_hidden_file};

#[test]
fn test_audio_file_recognition() {
    assert!(is_audio_file("song.wav"));
    assert!(is_audio_file("song.mp3"));
    assert!(is_audio_file("song.flac"));
    assert!(is_audio_file("song.ogg"));
    assert!(is_audio_file("SONG.WAV"));
    assert!(is_audio_file("song.FlAc"));
    assert!(is_audio_file("archive.tar.ogg"));
    assert!(!is_audio_file("song.txt"));
    assert!(!is_audio_file("song.wavx"));
    assert!(!is_audio_file("song"));
    assert!(!is_audio_file(".flac"));
    assert!(!is_audio_file("song."));
    assert!(!is_audio_file(""));
}

#[test]
fn test_hidden_file_recognition() {
    assert!(is_hidden_file(".hidden"));
    assert!(is_hidden_file(".s.wav"));
    assert!(!is_hidden_file("visible.wav"));
    assert!(!is_hidden_file(""));
}

#[test]
fn test_mix_frames_means() {
    // Two channels: each frame becomes the mean of its two samples,
    // rounded toward zero as integer division does.
    let samples: Vec<i16> = vec![10, 20, -3, -4, 7, -2, 1, 0];
    let mono = mix_frames(&samples, 2);
    assert_eq!(mono, vec![15, -3, 2, 0]);

    // A trailing incomplete frame is dropped.
    let samples: Vec<i16> = vec![4, 8, 5];
    let mono = mix_frames(&samples, 2);
    assert_eq!(mono, vec![6]);

    // One channel passes through.
    let samples: Vec<i16> = vec![-7, 3];
    assert_eq!(mix_frames(&samples, 1), vec![-7, 3]);
}

#[test]
fn test_envelope_groups_max_abs() {
    // One full group: the envelope is the largest absolute value.
    let mut mono: Vec<i16> = vec![0; SAMPLING_STEP];
    mono[100] = -300;
    mono[200] = 250;
    let env = envelope_groups(&mono);
    assert_eq!(env, vec![300]);

    // Two groups, the second dominated by a positive peak; a trailing
    // partial group is dropped.
    let mut mono: Vec<i16> = vec![0; SAMPLING_STEP * 2 + 5];
    mono[10] = 5;
    mono[SAMPLING_STEP + 1] = 1000;
    mono[SAMPLING_STEP * 2 + 2] = 30000;
    let env = envelope_groups(&mono);
    assert_eq!(env, vec![5, 1000]);

    // The most negative sample still fits the envelope.
    let mut mono: Vec<i16> = vec![0; SAMPLING_STEP];
    mono[0] = i16::MIN;
    assert_eq!(envelope_groups(&mono), vec![32768]);
}

#[test]
fn test_first_transit() {
    let samples: Vec<i16> = vec![0, 0, 0, 9, 0];
    assert_eq!(first_nonzero_index(&samples), Some(3));
    let silent: Vec<i16> = vec![0, 0];
    assert_eq!(first_nonzero_index(&silent), None);

    // A hit converts the absolute sample index to a frame by the channel
    // count; a miss advances the running position.
    let (hit, _) = transit_step(100, &samples, 2);
    assert_eq!(hit, Some((100 + 3) / 2));
    let (miss, pos) = transit_step(100, &silent, 2);
    assert!(miss.is_none());
    assert_eq!(pos, 102);
}

#[test]
fn test_waveform_generator_lifecycle() {
    let mut wg = WaveformGenerator::new();
    assert!(wg.source.is_none());
    assert!(wg.prepare_waveform(4096).is_err());

    wg.set_source(Some(String::from("a.wav")));
    assert!(wg.reset);
    wg.start_run();
    assert!(!wg.reset);

    // 4096 frames at 512 frames per envelope sample.
    assert_eq!(wg.prepare_waveform(4096).unwrap(), 8);
    assert_eq!(wg.prepare_waveform(4095).unwrap(), 7);

    wg.set_source(None);
    assert!(wg.reset);
    assert!(wg.prepare_waveform(4096).is_err());
}

#[test]
fn test_player_state_machine() {
    let mut p = Player::new();
    assert!(matches!(p.mode, PlayerMode::Idle));

    p.set_source(400);
    assert!(matches!(p.mode, PlayerMode::Loaded));

    // Silence skipping seeks to the furthest allowed position.
    let pos = p.play(100, true);
    assert_eq!(pos, 400);
    assert!(matches!(p.mode, PlayerMode::Playing));
    let pos = p.play(500, true);
    assert_eq!(pos, 500);
    let pos = p.play(100, false);
    assert_eq!(pos, 100);

    p.pause();
    assert!(matches!(p.mode, PlayerMode::Paused));
    let _ = p.play(0, false);
    assert!(matches!(p.mode, PlayerMode::Playing));

    p.source_ended();
    assert!(matches!(p.mode, PlayerMode::Loaded));

    p.stop();
    assert!(matches!(p.mode, PlayerMode::Loaded));
}

#[test]
fn test_migrator_result() {
    let mut r = MigratorResult::new();
    assert!(r.success);
    assert_eq!(r.logs.len(), 0);

    r.warn(String::from("missing folder"));
    assert!(r.success);
    assert_eq!(r.logs.len(), 1);

    r.error(String::from("broken row"));
    assert!(!r.success);
    assert_eq!(r.logs.len(), 2);
}

#[test]
fn test_billfish_folder_path() {
    // Rows are (id, parent id, name); the foreign root has id 0.
    let rows: Vec<(i32, i32, String)> = vec![
        (1, 0, String::from("a")),
        (2, 1, String::from("b")),
        (3, 2, String::from("c")),
        (9, 7, String::from("orphan")),
    ];
    assert_eq!(
        billfish_folder_path(&rows, 3),
        Some(vec![String::from("a"), String::from("b"), String::from("c")])
    );
    assert_eq!(billfish_folder_path(&rows, 1), Some(vec![String::from("a")]));
    assert!(billfish_folder_path(&rows, 9).is_none());
    assert_eq!(billfish_folder_path(&rows, 0), Some(vec![]));
}
