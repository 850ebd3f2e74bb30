use groovebox::assets::load_loop;
use groovebox::assets::load_sample;
use groovebox::assets::parse_loop_label;
use groovebox::assets::parse_u32;
use groovebox::assets::AssetEntry;
use groovebox::assets::AssetLoadError;
use groovebox::assets::AssetTable;
use groovebox::assets::Decoded;
use groovebox::assets::LoadFailure;
use groovebox::assets::LoopBank;
use groovebox::assets::SoundBank;
use groovebox::assets::SourceFile;

fn decoded(first: i16) -> Decoded {
    Decoded { pcm: vec![first, 2, -3], channels: 2, sample_rate: 44_100 }
}

fn good(stem: &str, first: i16) -> SourceFile {
    SourceFile { stem: stem.to_string(), decoded: Some(decoded(first)) }
}

fn corrupt(stem: &str) -> SourceFile {
    SourceFile { stem: stem.to_string(), decoded: None }
}

#[test]
fn parse_u32_reads_decimal_numbers() {
    assert_eq!(parse_u32("0"), Some(0));
    assert_eq!(parse_u32("120"), Some(120));
    assert_eq!(parse_u32("000120"), Some(120));
    assert_eq!(parse_u32("+7"), Some(7));
    assert_eq!(parse_u32("4294967295"), Some(u32::MAX));
}

#[test]
fn parse_u32_refuses_everything_else() {
    assert_eq!(parse_u32(""), None);
    assert_eq!(parse_u32("+"), None);
    assert_eq!(parse_u32("-"), None);
    assert_eq!(parse_u32("-5"), None);
    assert_eq!(parse_u32("++5"), None);
    assert_eq!(parse_u32("5+"), None);
    assert_eq!(parse_u32("12a"), None);
    assert_eq!(parse_u32(" 12"), None);
    assert_eq!(parse_u32("12 "), None);
    assert_eq!(parse_u32("1_2"), None);
    assert_eq!(parse_u32("1.5"), None);
    assert_eq!(parse_u32("4294967296"), None);
    assert_eq!(parse_u32("99999999999999999999999999"), None);
    assert_eq!(parse_u32("١٢"), None);
}

#[test]
fn parse_u32_agrees_with_std() {
    let samples = [
        "", "0", "1", "+0", "+", "-0", "007", "12", "4294967295", "4294967296", "42949672950",
        "1e3", "0x10", "٣", "12\n", "+-1", "+12", "9", "10000000000",
    ];
    for s in samples {
        assert_eq!(parse_u32(s), s.parse::<u32>().ok(), "{:?}", s);
    }
}

#[test]
fn loop_label_has_tempo_length_and_name() {
    assert_eq!(parse_loop_label("120_4_groove"), Ok((120, "groove".to_string())));
    assert_eq!(parse_loop_label("90_8_dl-ethnic"), Ok((90, "dl-ethnic".to_string())));
    assert_eq!(parse_loop_label("+90_8_x"), Ok((90, "x".to_string())));
}

#[test]
fn loop_label_needs_a_length() {
    assert_eq!(parse_loop_label("120_x_groove"), Err(AssetLoadError::InvalidLength));
    assert_eq!(parse_loop_label("120_four_groove"), Err(AssetLoadError::InvalidLength));
    assert_eq!(parse_loop_label("120__groove"), Err(AssetLoadError::InvalidLength));
    assert_eq!(parse_loop_label("120_4.5_groove"), Err(AssetLoadError::InvalidLength));
    assert_eq!(parse_loop_label("120_-4_groove"), Err(AssetLoadError::InvalidLength));
    assert_eq!(parse_loop_label("120_4294967296_groove"), Err(AssetLoadError::InvalidLength));
    assert_eq!(parse_loop_label("120_0_groove"), Ok((120, "groove".to_string())));
    assert_eq!(parse_loop_label("120_+16_groove"), Ok((120, "groove".to_string())));
    assert_eq!(parse_loop_label("120_4294967295_groove"), Ok((120, "groove".to_string())));
}

#[test]
fn loop_label_looks_at_the_tempo_first() {
    assert_eq!(parse_loop_label("fast_long_groove"), Err(AssetLoadError::InvalidTempo));
    assert_eq!(parse_loop_label("__"), Err(AssetLoadError::InvalidTempo));
    assert_eq!(parse_loop_label("1__"), Err(AssetLoadError::InvalidLength));
    assert_eq!(parse_loop_label("1_1_"), Ok((1, String::new())));
}

#[test]
fn loop_with_a_length_that_is_no_number_fails() {
    assert_eq!(
        load_loop(good("120_x_groove", 1)),
        Err(LoadFailure { stem: "120_x_groove".to_string(), error: AssetLoadError::InvalidLength })
    );
    let (bank, failures) = LoopBank::new(vec![good("120_x_groove", 1), good("90_8_drone", 2)]);
    assert!(bank.get("groove").is_none());
    assert_eq!(bank.get("drone").unwrap().native_tempo, Some(90));
    assert_eq!(
        failures,
        vec![LoadFailure {
            stem: "120_x_groove".to_string(),
            error: AssetLoadError::InvalidLength
        }]
    );
}

#[test]
fn loop_label_may_be_empty_or_not_ascii() {
    assert_eq!(parse_loop_label("120_4_"), Ok((120, String::new())));
    assert_eq!(parse_loop_label("120_4_größe"), Ok((120, "größe".to_string())));
}

#[test]
fn loop_label_needs_three_parts() {
    assert_eq!(parse_loop_label(""), Err(AssetLoadError::InvalidName));
    assert_eq!(parse_loop_label("groove"), Err(AssetLoadError::InvalidName));
    assert_eq!(parse_loop_label("120_groove"), Err(AssetLoadError::InvalidName));
    assert_eq!(parse_loop_label("120_4_my_groove"), Err(AssetLoadError::InvalidName));
    assert_eq!(parse_loop_label("a_b_c_d_e"), Err(AssetLoadError::InvalidName));
    assert_eq!(parse_loop_label("bad"), Err(AssetLoadError::InvalidName));
}

#[test]
fn loop_label_needs_a_tempo() {
    assert_eq!(parse_loop_label("fast_4_groove"), Err(AssetLoadError::InvalidTempo));
    assert_eq!(parse_loop_label("_4_groove"), Err(AssetLoadError::InvalidTempo));
    assert_eq!(parse_loop_label("-120_4_groove"), Err(AssetLoadError::InvalidTempo));
    assert_eq!(parse_loop_label("12.5_4_groove"), Err(AssetLoadError::InvalidTempo));
    assert_eq!(parse_loop_label("4294967296_4_groove"), Err(AssetLoadError::InvalidTempo));
}

#[test]
fn sample_goes_by_its_stem() {
    assert_eq!(
        load_sample(good("bd", 1)),
        Ok(AssetEntry {
            label: "bd".to_string(),
            channels: 2,
            sample_rate: 44_100,
            pcm: vec![1, 2, -3],
            native_tempo: None,
        })
    );
    // A sample's stem is not taken apart.
    assert_eq!(load_sample(good("120_4_groove", 1)).unwrap().label, "120_4_groove");
}

#[test]
fn sample_that_was_not_decoded_fails() {
    assert_eq!(
        load_sample(corrupt("bd")),
        Err(LoadFailure { stem: "bd".to_string(), error: AssetLoadError::Decode })
    );
}

#[test]
fn loop_goes_by_the_name_in_its_stem() {
    assert_eq!(
        load_loop(good("120_4_groove", 9)),
        Ok(AssetEntry {
            label: "groove".to_string(),
            channels: 2,
            sample_rate: 44_100,
            pcm: vec![9, 2, -3],
            native_tempo: Some(120),
        })
    );
}

#[test]
fn loop_failures_name_the_file_and_the_reason() {
    assert_eq!(
        load_loop(corrupt("120_4_groove")),
        Err(LoadFailure { stem: "120_4_groove".to_string(), error: AssetLoadError::Decode })
    );
    // Decoding is looked at first.
    assert_eq!(
        load_loop(corrupt("bad")),
        Err(LoadFailure { stem: "bad".to_string(), error: AssetLoadError::Decode })
    );
    assert_eq!(
        load_loop(good("bad", 1)),
        Err(LoadFailure { stem: "bad".to_string(), error: AssetLoadError::InvalidName })
    );
    assert_eq!(
        load_loop(good("x_4_groove", 1)),
        Err(LoadFailure { stem: "x_4_groove".to_string(), error: AssetLoadError::InvalidTempo })
    );
}

#[test]
fn table_insert_and_get() {
    let table = AssetTable::new();
    assert!(table.get("bd").is_none());
    let table = table.insert(load_sample(good("bd", 1)).unwrap());
    let table = table.insert(load_sample(good("sn", 2)).unwrap());
    assert_eq!(table.get("bd").unwrap().pcm[0], 1);
    assert_eq!(table.get("sn").unwrap().pcm[0], 2);
    assert!(table.get("hh").is_none());
    assert!(table.get("").is_none());
    assert!(table.get("b").is_none());
}

#[test]
fn table_insert_replaces_the_same_label() {
    let table = AssetTable::new();
    let table = table.insert(load_sample(good("bd", 1)).unwrap());
    let table = table.insert(load_sample(good("sn", 2)).unwrap());
    let table = table.insert(load_sample(good("bd", 3)).unwrap());
    assert_eq!(table.get("bd").unwrap().pcm[0], 3);
    assert_eq!(table.get("sn").unwrap().pcm[0], 2);
}

#[test]
fn sound_bank_keeps_what_loads() {
    let (bank, failures) =
        SoundBank::new(vec![good("bd", 1), corrupt("sn"), good("hh", 3), corrupt("cp")]);
    assert_eq!(bank.get("bd").unwrap().pcm, vec![1, 2, -3]);
    assert_eq!(bank.get("bd").unwrap().native_tempo, None);
    assert_eq!(bank.get("hh").unwrap().pcm[0], 3);
    assert!(bank.get("sn").is_none());
    assert!(bank.get("cp").is_none());
    assert_eq!(
        failures,
        vec![
            LoadFailure { stem: "sn".to_string(), error: AssetLoadError::Decode },
            LoadFailure { stem: "cp".to_string(), error: AssetLoadError::Decode },
        ]
    );
}

#[test]
fn empty_directory_gives_empty_banks() {
    let (bank, failures) = SoundBank::new(Vec::new());
    assert!(bank.get("bd").is_none());
    assert!(failures.is_empty());
    let (bank, failures) = LoopBank::new(Vec::new());
    assert!(bank.get("groove").is_none());
    assert!(failures.is_empty());
}

#[test]
fn later_file_of_the_same_label_stands() {
    let (bank, failures) = SoundBank::new(vec![good("bd", 1), good("bd", 2)]);
    assert_eq!(bank.get("bd").unwrap().pcm[0], 2);
    assert!(failures.is_empty());
    // Two loop files of different tempo and the same name.
    let (bank, _) = LoopBank::new(vec![good("120_4_groove", 1), good("90_4_groove", 2)]);
    assert_eq!(bank.get("groove").unwrap().native_tempo, Some(90));
    assert_eq!(bank.get("groove").unwrap().pcm[0], 2);
}

#[test]
fn failed_file_does_not_remove_an_asset() {
    let (bank, failures) = SoundBank::new(vec![good("bd", 1), corrupt("bd")]);
    assert_eq!(bank.get("bd").unwrap().pcm[0], 1);
    assert_eq!(failures.len(), 1);
}

#[test]
fn loop_bank_with_one_valid_and_one_corrupt_file() {
    let (bank, failures) = LoopBank::new(vec![good("120_4_groove", 5), corrupt("bad")]);
    let groove = bank.get("groove").unwrap();
    assert_eq!(groove.label, "groove");
    assert_eq!(groove.native_tempo, Some(120));
    assert_eq!(groove.channels, 2);
    assert_eq!(groove.sample_rate, 44_100);
    assert_eq!(groove.pcm, vec![5, 2, -3]);
    assert!(bank.get("bad").is_none());
    assert!(bank.get("120_4_groove").is_none());
    assert_eq!(
        failures,
        vec![LoadFailure { stem: "bad".to_string(), error: AssetLoadError::Decode }]
    );
}

#[test]
fn loop_bank_refuses_malformed_names_only() {
    let (bank, failures) = LoopBank::new(vec![
        good("groove", 1),
        good("120_4_groove", 2),
        good("slow_4_drone", 3),
        good("60_2_drone", 4),
    ]);
    assert_eq!(bank.get("groove").unwrap().pcm[0], 2);
    assert_eq!(bank.get("drone").unwrap().native_tempo, Some(60));
    assert_eq!(
        failures,
        vec![
            LoadFailure { stem: "groove".to_string(), error: AssetLoadError::InvalidName },
            LoadFailure { stem: "slow_4_drone".to_string(), error: AssetLoadError::InvalidTempo },
        ]
    );
}
