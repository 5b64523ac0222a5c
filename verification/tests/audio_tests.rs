use music_player::audio::AudioController;

const LISTING: &[u8] = b"Sink Input #42\n\
\tDriver: protocol-native.c\n\
\tVolume: front-left: 42598 /  65% / -11.23 dB,   front-right: 42598 /  65% / -11.23 dB\n\
\tProperties:\n\
\t\tapplication.name = \"Firefox\"\n\
\t\tapplication.process.id = \"1234\"\n\
Sink Input #57\n\
\tVolume: front-left: 65536 / 100% / 0.00 dB\n\
\tProperties:\n\
\t\tapplication.name = \"Spotify\"\n";

#[test]
fn parses_two_records() {
    let mut ac = AudioController::new();
    ac.refresh_sink_inputs(LISTING);
    let recs = ac.sink_inputs();
    assert_eq!(recs.len(), 2);
    assert_eq!(recs[0].index, 42);
    assert_eq!(recs[0].application_name, b"Firefox".to_vec());
    assert_eq!(recs[0].volume_percent, 65);
    assert_eq!(recs[1].index, 57);
    assert_eq!(recs[1].application_name, b"Spotify".to_vec());
    assert_eq!(recs[1].volume_percent, 100);
}

#[test]
fn missing_volume_field_defaults_to_full() {
    // a record whose listing shows no volume line still parses, at the
    // default of 100 percent
    let dump = b"Sink Input #7\n\tapplication.name = \"mpv\"\n";
    let mut ac = AudioController::new();
    ac.refresh_sink_inputs(dump);
    let recs = ac.sink_inputs();
    assert_eq!(recs.len(), 1);
    assert_eq!(recs[0].index, 7);
    assert_eq!(recs[0].application_name, b"mpv".to_vec());
    assert_eq!(recs[0].volume_percent, 100);
}

#[test]
fn unquoted_name_field_yields_empty_name() {
    let dump = b"Sink Input #3\n\tapplication.name = bare\n";
    let mut ac = AudioController::new();
    ac.refresh_sink_inputs(dump);
    let recs = ac.sink_inputs();
    assert_eq!(recs.len(), 1);
    assert_eq!(recs[0].application_name, Vec::<u8>::new());
}

#[test]
fn unreadable_index_drops_the_record() {
    let dump = b"Sink Input #x9\n\tapplication.name = \"a\"\nSink Input #5\n\tapplication.name = \"b\"\n";
    let mut ac = AudioController::new();
    ac.refresh_sink_inputs(dump);
    let recs = ac.sink_inputs();
    assert_eq!(recs.len(), 1);
    assert_eq!(recs[0].index, 5);
}

#[test]
fn malformed_volume_line_keeps_default() {
    let dump = b"Sink Input #1\n\tVolume: garbage\n\tapplication.name = \"x\"\n";
    let mut ac = AudioController::new();
    ac.refresh_sink_inputs(dump);
    assert_eq!(ac.sink_inputs()[0].volume_percent, 100);
}

#[test]
fn volume_without_space_before_percent_keeps_default() {
    let dump = b"Sink Input #2\n\tVolume:65%\n\tapplication.name = \"x\"\n";
    let mut ac = AudioController::new();
    ac.refresh_sink_inputs(dump);
    assert_eq!(ac.sink_inputs()[0].volume_percent, 100);
}

#[test]
fn empty_listing_yields_no_records() {
    let mut ac = AudioController::new();
    ac.refresh_sink_inputs(b"");
    assert!(ac.sink_inputs().is_empty());
}

#[test]
fn refresh_replaces_wholesale() {
    let mut ac = AudioController::new();
    ac.refresh_sink_inputs(LISTING);
    assert_eq!(ac.sink_inputs().len(), 2);
    ac.refresh_sink_inputs(b"Sink Input #9\n\tapplication.name = \"mpv\"\n");
    let recs = ac.sink_inputs();
    assert_eq!(recs.len(), 1);
    assert_eq!(recs[0].index, 9);
}

#[test]
fn find_by_name_is_fuzzy_and_case_insensitive() {
    let mut ac = AudioController::new();
    ac.refresh_sink_inputs(LISTING);
    // mixer name contains the pattern
    let hit = ac.find_sink_input_by_name("fire").expect("substring should match");
    assert_eq!(hit.index, 42);
    // pattern contains the mixer name, case folded
    let hit = ac
        .find_sink_input_by_name("SPOTIFY premium")
        .expect("containing pattern should match");
    assert_eq!(hit.index, 57);
    assert!(ac.find_sink_input_by_name("rhythmbox").is_none());
}

#[test]
fn find_by_name_returns_first_match() {
    let dump = b"Sink Input #1\n\tapplication.name = \"Firefox A\"\n\
Sink Input #2\n\tapplication.name = \"Firefox B\"\n";
    let mut ac = AudioController::new();
    ac.refresh_sink_inputs(dump);
    let hit = ac.find_sink_input_by_name("firefox").unwrap();
    assert_eq!(hit.index, 1);
}

#[test]
fn volume_write_clamps_to_ceiling() {
    let ac = AudioController::new();
    let w = ac.set_sink_input_volume(4, 120);
    assert_eq!(w.index, 4);
    assert_eq!(w.percent, 120);
    let w = ac.set_sink_input_volume(4, 151);
    assert_eq!(w.percent, 150);
}

#[test]
fn overshooting_write_equals_maximum_write() {
    // writing any volume above 150 percent behaves exactly like
    // writing 150 percent
    let ac = AudioController::new();
    let over = ac.set_sink_input_volume(8, 400);
    let max = ac.set_sink_input_volume(8, 150);
    assert_eq!(over.index, max.index);
    assert_eq!(over.percent, max.percent);
}

#[test]
fn duplicate_index_keeps_last_record() {
    let dump = b"Sink Input #5\n\tapplication.name = \"old\"\n\
Sink Input #5\n\tapplication.name = \"new\"\n";
    let mut ac = AudioController::new();
    ac.refresh_sink_inputs(dump);
    let recs = ac.sink_inputs();
    assert_eq!(recs.len(), 1);
    assert_eq!(recs[0].application_name, b"new".to_vec());
}
