use autozikr::audio::{collect_audio_files, find_subchunk, get_builtin_bytes, is_wav_name};

fn wav_with_chunks(chunks: &[(&[u8; 4], &[u8])]) -> Vec<u8> {
    let mut v = b"RIFF\0\0\0\0WAVE".to_vec();
    for (tag, body) in chunks {
        v.extend_from_slice(*tag);
        v.extend_from_slice(&(body.len() as u32).to_le_bytes());
        v.extend_from_slice(body);
    }
    v
}

#[test]
fn find_subchunk_after_fmt() {
    let data = wav_with_chunks(&[(b"fmt ", &[1u8; 16]), (b"data", &[0u8; 4])]);
    assert_eq!(find_subchunk(&data, b"data"), Some(36));
    assert_eq!(find_subchunk(&data, b"fmt "), Some(12));
    assert_eq!(find_subchunk(&data, b"LIST"), None);
}

#[test]
fn find_subchunk_short_data() {
    assert_eq!(find_subchunk(b"RIFF", b"data"), None);
    assert_eq!(find_subchunk(b"RIFF\0\0\0\0WAVEdat", b"data"), None);
}

#[test]
fn find_subchunk_oversized_chunk() {
    let mut data = b"RIFF\0\0\0\0WAVEfmt ".to_vec();
    data.extend_from_slice(&0xffff_ffffu32.to_le_bytes());
    data.extend_from_slice(b"data\0\0\0\0");
    assert_eq!(find_subchunk(&data, b"data"), None);
}

#[test]
fn find_subchunk_header_at_end() {
    let data = wav_with_chunks(&[(b"data", &[])]);
    assert_eq!(find_subchunk(&data, b"data"), Some(12));
}

#[test]
fn builtin_lookup() {
    let table: &[(&str, &[u8])] = &[("a.wav", &[1, 2]), ("b.wav", &[3]), ("a.wav", &[9])];
    assert_eq!(get_builtin_bytes(table, "a.wav"), Some(&[1u8, 2][..]));
    assert_eq!(get_builtin_bytes(table, "b.wav"), Some(&[3u8][..]));
    assert_eq!(get_builtin_bytes(table, "c.wav"), None);
    assert_eq!(get_builtin_bytes(&[], "a.wav"), None);
}

#[test]
fn wav_names() {
    let w = |s: &str| is_wav_name(&s.chars().collect());
    assert!(w("Salawat.wav"));
    assert!(w("x.tar.wav"));
    assert!(w("..wav"));
    assert!(!w(".wav"));
    assert!(!w("song.WAV"));
    assert!(!w("song.mp3"));
    assert!(!w("wav"));
}

#[test]
fn audio_files_sorted_and_deduplicated() {
    let builtin: Vec<String> = vec!["Salawat.wav".into(), "Allah.wav".into(), "Kalima.wav".into()];
    let found: Vec<String> = vec![
        "mine.wav".into(),
        "Allah.wav".into(),
        "notes.txt".into(),
        "mine.wav".into(),
        "Zed.wav".into(),
        ".wav".into(),
    ];
    let files = collect_audio_files(&builtin, &found);
    assert_eq!(files, vec!["Allah.wav", "Kalima.wav", "Salawat.wav", "Zed.wav", "mine.wav"]);
}

#[test]
fn audio_files_keep_builtin_duplicates() {
    let builtin: Vec<String> = vec!["b.wav".into(), "a.wav".into(), "b.wav".into()];
    let files = collect_audio_files(&builtin, &Vec::new());
    assert_eq!(files, vec!["a.wav", "b.wav", "b.wav"]);
}

#[test]
fn audio_files_code_point_order() {
    let found: Vec<String> = vec!["é.wav".into(), "z.wav".into(), "Z.wav".into(), "a.wav".into(), "ab.wav".into()];
    let files = collect_audio_files(&Vec::new(), &found);
    let mut expect: Vec<String> = found.clone();
    expect.sort();
    assert_eq!(files, expect);
}
