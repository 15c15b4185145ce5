use taiko::parse::parse_beatmap;

fn folder() -> Vec<u8> {
    b"maps/demo".to_vec()
}

#[test]
fn parses_a_taiko_map() {
    let content = b"[General]\n\
AudioFilename: song.ogg\n\
Mode: 1\n\
[HitObjects]\n\
64,192,1000,1,0,0:0:0:0\n\
64,192,2000,1,4,0:0:0:0\n\
64,192,2500,1,8,0:0:0:0\n\
64,192,3000,1,12,0:0:0:0\n\
64,192,3500,1,5,0:0:0:0\n"
        .to_vec();
    let bm = parse_beatmap(&folder(), &content).expect("expected a usable map");
    assert_eq!(bm.name, b"song.ogg".to_vec());
    assert_eq!(bm.songpath, b"maps/demo/song.ogg".to_vec());
    assert_eq!(bm.maxhitoffset, 50);
    assert_eq!(bm.objects.len(), 5);
    let got: Vec<(bool, i64, bool)> =
        bm.objects.iter().map(|h| (h.red, h.time, h.big)).collect();
    assert_eq!(
        got,
        vec![
            (true, 1000, false),
            (true, 2000, true),
            (false, 2500, false),
            (false, 3000, true),
            (false, 3500, false),
        ]
    );
}

#[test]
fn crlf_lines_are_handled() {
    let content = b"[General]\r\n\
AudioFilename: song.ogg\r\n\
Mode: 1\r\n\
[HitObjects]\r\n\
64,192,1000,1,0,0:0:0:0\r\n"
        .to_vec();
    let bm = parse_beatmap(&folder(), &content).expect("expected a usable map");
    assert_eq!(bm.name, b"song.ogg".to_vec());
    assert_eq!(bm.objects.len(), 1);
    assert_eq!(bm.objects[0].time, 1000);
}

#[test]
fn rejects_non_taiko_mode() {
    let content = b"[General]\nAudioFilename: song.ogg\nMode: 3\n".to_vec();
    assert!(parse_beatmap(&folder(), &content).is_none());
}

#[test]
fn rejects_non_ogg_audio() {
    let content = b"[General]\nAudioFilename: song.mp3\nMode: 1\n".to_vec();
    assert!(parse_beatmap(&folder(), &content).is_none());
}

#[test]
fn rejects_bare_audio_filename_line() {
    // The field name alone: there is not even a byte to skip after it.
    let content = b"[General]\nAudioFilename:\n".to_vec();
    assert!(parse_beatmap(&folder(), &content).is_none());
}

#[test]
fn rejects_bare_mode_line() {
    let content = b"[General]\nMode:\n".to_vec();
    assert!(parse_beatmap(&folder(), &content).is_none());
}

#[test]
fn rejects_malformed_object_type() {
    let content = b"[General]\nAudioFilename: song.ogg\nMode: 1\n[HitObjects]\n64,192,1000,1,x,0\n"
        .to_vec();
    assert!(parse_beatmap(&folder(), &content).is_none());
}

#[test]
fn rejects_object_type_out_of_range() {
    // 300 does not fit in a u8.
    let content = b"[General]\nAudioFilename: song.ogg\nMode: 1\n[HitObjects]\n64,192,1000,1,300,0\n"
        .to_vec();
    assert!(parse_beatmap(&folder(), &content).is_none());
}

#[test]
fn rejects_malformed_object_time() {
    let content = b"[General]\nAudioFilename: song.ogg\nMode: 1\n[HitObjects]\n64,192,later,1,0,0\n"
        .to_vec();
    assert!(parse_beatmap(&folder(), &content).is_none());
}

#[test]
fn skips_lines_without_six_fields() {
    let content = b"[General]\nAudioFilename: song.ogg\nMode: 1\n[HitObjects]\n\
64,192,1000,1,0\n\
[TimingPoints]\n\
64,192,2000,1,4,0:0:0:0\n"
        .to_vec();
    let bm = parse_beatmap(&folder(), &content).expect("expected a usable map");
    // The five-field line and the section header are skipped; a header
    // other than [General] does not leave the hit-object section.
    assert_eq!(bm.objects.len(), 1);
    assert_eq!(bm.objects[0].time, 2000);
    assert!(bm.objects[0].red);
    assert!(bm.objects[0].big);
}

#[test]
fn negative_and_signed_times_parse() {
    let content = b"[General]\nAudioFilename: song.ogg\nMode: 1\n[HitObjects]\n\
64,192,-500,1,0,0\n\
64,192,+750,1,0,0\n"
        .to_vec();
    let bm = parse_beatmap(&folder(), &content).expect("expected a usable map");
    assert_eq!(bm.objects[0].time, -500);
    assert_eq!(bm.objects[1].time, 750);
}

#[test]
fn empty_content_gives_an_empty_map() {
    let bm = parse_beatmap(&folder(), &Vec::new()).expect("expected a usable map");
    assert_eq!(bm.name, b"".to_vec());
    assert_eq!(bm.songpath, b"maps/demo/".to_vec());
    assert!(bm.objects.is_empty());
    assert_eq!(bm.maxhitoffset, 50);
}

#[test]
fn audio_filename_without_space_loses_a_byte() {
    // The byte directly after the colon is always skipped, space or not,
    // exactly as the game always read the field.
    let content = b"[General]\nAudioFilename:xsong.ogg\nMode: 1\n".to_vec();
    let bm = parse_beatmap(&folder(), &content).expect("expected a usable map");
    assert_eq!(bm.name, b"song.ogg".to_vec());
}

#[test]
fn last_audio_filename_wins() {
    let content = b"[General]\nAudioFilename: one.ogg\nAudioFilename: two.ogg\nMode: 1\n".to_vec();
    let bm = parse_beatmap(&folder(), &content).expect("expected a usable map");
    assert_eq!(bm.name, b"two.ogg".to_vec());
}
