use voxelcraft::settings::{
    encode_preferences, key_text, scan_preferences, Grade, PrefEntry, PrefError, PrefKey, PrefValue,
};

fn flag(key: PrefKey, b: bool) -> PrefEntry {
    PrefEntry { key, value: PrefValue::Flag(b) }
}

fn num(key: PrefKey, t: &str) -> PrefEntry {
    PrefEntry { key, value: PrefValue::Number(t.to_string()) }
}

#[test]
fn reads_entries_in_file_order() {
    let text = "# saved\nversion=2\n\n  scale = 0.5 \r\nvsync=false\ngrade=2\nwind_sway=true\n";
    let got = scan_preferences(text).unwrap();
    assert_eq!(
        got,
        vec![
            num(PrefKey::Scale, "0.5"),
            flag(PrefKey::Vsync, false),
            PrefEntry { key: PrefKey::Grade, value: PrefValue::Grade(Grade::Cine) },
            flag(PrefKey::WindSway, true),
        ]
    );
}

#[test]
fn version_alone_is_an_empty_file() {
    assert_eq!(scan_preferences("version=1").unwrap(), vec![]);
}

#[test]
fn value_keeps_later_equals_signs() {
    assert_eq!(scan_preferences("version=3\nfov=1=2"), Err(PrefError::InvalidValue("1=2".to_string())));
}

#[test]
fn refuses_a_line_without_equals() {
    assert_eq!(scan_preferences("version=3\nvsync"), Err(PrefError::NoEquals));
}

#[test]
fn refuses_a_key_given_twice() {
    assert_eq!(
        scan_preferences("version=3\ntaa=true\n taa =false"),
        Err(PrefError::Duplicate("taa".to_string()))
    );
    assert_eq!(
        scan_preferences("version=3\nversion=3"),
        Err(PrefError::Duplicate("version".to_string()))
    );
}

#[test]
fn refuses_unknown_versions() {
    assert_eq!(scan_preferences("version=4\n"), Err(PrefError::UnsupportedVersion));
    assert_eq!(scan_preferences("version=03\n"), Err(PrefError::UnsupportedVersion));
}

#[test]
fn refuses_values_of_the_wrong_kind() {
    assert_eq!(
        scan_preferences("version=3\nao=yes"),
        Err(PrefError::InvalidValue("yes".to_string()))
    );
    assert_eq!(
        scan_preferences("version=3\nambient=0.1.2"),
        Err(PrefError::InvalidValue("0.1.2".to_string()))
    );
    assert_eq!(scan_preferences("version=3\ngrade=3"), Err(PrefError::UnknownGrade));
}

#[test]
fn refuses_unknown_keys() {
    assert_eq!(
        scan_preferences("version=3\nbrightness=1"),
        Err(PrefError::UnknownKey("brightness".to_string()))
    );
}

#[test]
fn the_first_refusal_wins() {
    assert_eq!(scan_preferences("nope\nversion=9"), Err(PrefError::NoEquals));
    assert_eq!(scan_preferences("ao=maybe"), Err(PrefError::InvalidValue("maybe".to_string())));
}

#[test]
fn refuses_a_file_without_version() {
    assert_eq!(scan_preferences("taa=true\n"), Err(PrefError::MissingVersion));
    assert_eq!(scan_preferences(""), Err(PrefError::MissingVersion));
}

#[test]
fn experimental_keys_need_version_two() {
    assert_eq!(
        scan_preferences("version=1\nsoft_shadows=false"),
        Err(PrefError::ExperimentalNeedsV2)
    );
    assert!(scan_preferences("version=2\nsoft_shadows=false").is_ok());
}

#[test]
fn architecture_keys_need_version_three() {
    assert_eq!(
        scan_preferences("version=2\nshadow_pass=true"),
        Err(PrefError::ArchitectureNeedsV3)
    );
    assert!(scan_preferences("version=3\nshadow_pass=true").is_ok());
}

#[test]
fn number_text_is_what_f32_reads() {
    for t in ["1", "-0.5", "+.5", "5.", "1e-3", "2E+4", "inf", "-Infinity", "NaN"] {
        let text = format!("version=3\nfov={t}");
        assert_eq!(scan_preferences(&text).unwrap(), vec![num(PrefKey::Fov, t)]);
        assert!(t.parse::<f32>().is_ok());
    }
    for t in [".", "e5", "1e", "0x10", "1_000", "--1"] {
        let text = format!("version=3\nfov={t}");
        assert_eq!(scan_preferences(&text), Err(PrefError::InvalidValue(t.to_string())));
        assert!(t.parse::<f32>().is_err());
    }
}

#[test]
fn written_entries_read_back() {
    let entries = vec![
        num(PrefKey::Scale, "0.75"),
        num(PrefKey::FogDensity, "0.0005"),
        flag(PrefKey::Aces, true),
        PrefEntry { key: PrefKey::Grade, value: PrefValue::Grade(Grade::Warm) },
        flag(PrefKey::ShadowPass, true),
    ];
    let text = encode_preferences(&entries);
    assert_eq!(
        text,
        "version=3\nscale=0.75\nfog_density=0.0005\naces=true\ngrade=1\nshadow_pass=true\n"
    );
    assert_eq!(scan_preferences(&text).unwrap(), entries);
}

#[test]
fn nothing_written_is_just_the_version() {
    assert_eq!(encode_preferences(&vec![]), "version=3\n");
}

#[test]
fn key_names_match_the_file() {
    assert_eq!(key_text(PrefKey::CompactShadeHit), "compact_shade_hit");
    assert_eq!(key_text(PrefKey::GradeStrength), "grade_strength");
    assert_eq!(key_text(PrefKey::Ao), "ao");
}
