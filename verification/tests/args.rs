use voxelcraft::lod::FadeSchedule;
use voxelcraft::config::{
    check_loaded, journal_args, kind_of, scan_args, switches, toggle_names, toggles, ArgKind, ArgScan, JournalArgs, JournalStart, OpenRefusal,
    RunMode, Switches,
};

fn args(a: &[&str]) -> Vec<String> {
    a.iter().map(|s| s.to_string()).collect()
}

fn s(t: &str) -> String {
    t.to_string()
}

#[test]
fn no_arguments_is_a_plain_run() {
    assert_eq!(
        scan_args(&vec![]),
        ArgScan { mode: RunMode::Run, settings: vec![], unknown: vec![], help: false }
    );
}

#[test]
fn flags_keep_their_order_and_values() {
    let r = scan_args(&args(&["--seed", "7", "--no-vsync", "--fov", "90", "--hud"]));
    assert_eq!(r.mode, RunMode::Run);
    assert_eq!(
        r.settings,
        vec![
            (s("--seed"), Some(s("7"))),
            (s("--no-vsync"), None),
            (s("--fov"), Some(s("90"))),
            (s("--hud"), None),
        ]
    );
    assert!(r.unknown.is_empty());
}

#[test]
fn a_value_flag_takes_the_next_argument_whatever_it_is() {
    let r = scan_args(&args(&["--bar", "--help"]));
    assert_eq!(r.settings, vec![(s("--bar"), Some(s("--help")))]);
    assert!(!r.help);
}

#[test]
fn a_value_flag_at_the_end_takes_empty_text() {
    let r = scan_args(&args(&["--time"]));
    assert_eq!(r.settings, vec![(s("--time"), Some(s("")))]);
}

#[test]
fn unknown_arguments_are_collected() {
    let r = scan_args(&args(&["--no-water", "--frobnicate", "x", "--hud"]));
    assert_eq!(r.unknown, vec![s("--frobnicate"), s("x")]);
    assert_eq!(r.settings, vec![(s("--no-water"), None), (s("--hud"), None)]);
}

#[test]
fn the_last_mode_wins() {
    let r = scan_args(&args(&["--screenshot", "a.png", "--bench-frames", "60"]));
    assert_eq!(r.mode, RunMode::BenchFrames(s("60")));
    let r = scan_args(&args(&["--lookbook", "out", "--bench-terrain", "9", "--screenshot", "b.png"]));
    assert_eq!(r.mode, RunMode::Screenshot(s("b.png")));
}

#[test]
fn diff_takes_two_files_and_its_options() {
    let r = scan_args(&args(&[
        "--diff", "a.png", "b.png", "--grid", "4,3", "--crop", "0,0,.5,.5", "--hud",
    ]));
    assert_eq!(
        r.mode,
        RunMode::Diff(
            s("a.png"),
            s("b.png"),
            vec![(s("--grid"), s("4,3")), (s("--crop"), s("0,0,.5,.5"))]
        )
    );
    assert_eq!(r.settings, vec![(s("--hud"), None)]);
}

#[test]
fn diff_options_stop_at_another_flag() {
    let r = scan_args(&args(&["--diff", "a", "b", "--no-ao", "--grid", "2"]));
    assert_eq!(r.mode, RunMode::Diff(s("a"), s("b"), vec![]));
    assert_eq!(r.settings, vec![(s("--no-ao"), None)]);
    assert_eq!(r.unknown, vec![s("--grid"), s("2")]);
}

#[test]
fn diff_with_missing_files_reads_empty_text() {
    let r = scan_args(&args(&["--diff", "a"]));
    assert_eq!(r.mode, RunMode::Diff(s("a"), s(""), vec![]));
    let r = scan_args(&args(&["--diff", "a", "b", "--grid"]));
    assert_eq!(r.mode, RunMode::Diff(s("a"), s("b"), vec![(s("--grid"), s(""))]));
}

#[test]
fn help_ends_the_reading() {
    let r = scan_args(&args(&["--hud", "-h", "--bogus"]));
    assert!(r.help);
    assert_eq!(r.settings, vec![(s("--hud"), None)]);
    assert!(r.unknown.is_empty());
}

#[test]
fn journal_files_follow_the_last_flag_given() {
    let j = journal_args(&scan_args(&args(&[
        "--load-edits", "a.j", "--save-edits", "b.j", "--load-edits", "c.j",
    ])));
    assert_eq!(
        j,
        JournalArgs {
            edits: None,
            load_edits: Some(s("c.j")),
            save_edits: Some(s("b.j")),
            no_exit_save: false
        }
    );
    assert_eq!(j.journal_in(), Some((s("c.j"), true)));
    assert_eq!(j.journal_out(), Some(s("b.j")));
}

#[test]
fn a_world_on_disk_wins_and_may_be_missing() {
    let j = journal_args(&scan_args(&args(&["--load-edits", "a.j", "--edits", "w.j", "--save-edits", "b.j"])));
    assert_eq!(j.journal_in(), Some((s("w.j"), false)));
    assert_eq!(j.journal_out(), Some(s("w.j")));
}

#[test]
fn no_exit_save_writes_nothing() {
    let j = journal_args(&scan_args(&args(&["--edits", "w.j", "--no-exit-save"])));
    assert!(j.no_exit_save);
    assert_eq!(j.journal_out(), None);
    let j = journal_args(&scan_args(&args(&["--hud"])));
    assert_eq!(j.journal_in(), None);
    assert_eq!(j.journal_out(), None);
}

#[test]
fn a_command_line_of_known_flags_reads_back() {
    let line = args(&["--time", "0.74", "--cam-height", "24", "--cam-pitch", "-6", "--no-taa", "--cam-yaw", "143"]);
    let r = scan_args(&line);
    assert_eq!(
        r,
        ArgScan {
            mode: RunMode::Run,
            settings: vec![
                (s("--time"), Some(s("0.74"))),
                (s("--cam-height"), Some(s("24"))),
                (s("--cam-pitch"), Some(s("-6"))),
                (s("--no-taa"), None),
                (s("--cam-yaw"), Some(s("143"))),
            ],
            unknown: vec![],
            help: false,
        }
    );
}

#[test]
fn arguments_are_classified() {
    assert_eq!(kind_of("--diff"), ArgKind::Diff);
    assert_eq!(kind_of("--fog-g"), ArgKind::Value);
    assert_eq!(kind_of("--no-physics"), ArgKind::Switch);
    assert_eq!(kind_of("-h"), ArgKind::Help);
    assert_eq!(kind_of("--grid"), ArgKind::Unknown);
    assert_eq!(kind_of("seed"), ArgKind::Unknown);
}

fn start_of(a: &[&str], resume: bool) -> Result<JournalStart, OpenRefusal> {
    journal_args(&scan_args(&args(a))).start(resume)
}

#[test]
fn start_refuses_edits_with_either_half() {
    assert!(matches!(start_of(&["--edits", "w.j", "--load-edits", "a.j"], false), Err(OpenRefusal::EditsWithHalves)));
    assert!(matches!(start_of(&["--save-edits", "b.j", "--edits", "w.j"], true), Err(OpenRefusal::EditsWithHalves)));
}

#[test]
fn start_without_a_journal_is_fresh_unless_resuming() {
    assert!(matches!(start_of(&["--hud"], false), Ok(JournalStart::Fresh)));
    assert!(matches!(start_of(&["--save-edits", "b.j"], false), Ok(JournalStart::Fresh)));
    assert!(matches!(start_of(&["--save-edits", "b.j"], true), Err(OpenRefusal::ResumeWithoutJournal)));
}

#[test]
fn start_reads_the_named_journal() {
    match start_of(&["--edits", "w.j"], true) {
        Ok(JournalStart::Load { path, must_exist }) => {
            assert_eq!(path, "w.j");
            assert!(!must_exist);
        }
        other => panic!("unexpected {other:?}"),
    }
    match start_of(&["--load-edits", "a.j", "--save-edits", "b.j"], false) {
        Ok(JournalStart::Load { path, must_exist }) => {
            assert_eq!(path, "a.j");
            assert!(must_exist);
        }
        other => panic!("unexpected {other:?}"),
    }
}

#[test]
fn a_loaded_journal_must_carry_what_the_flags_ask() {
    assert_eq!(check_loaded(true, false, false, false), Err(OpenRefusal::ResumeWithoutPlayer));
    assert_eq!(check_loaded(true, false, true, true), Err(OpenRefusal::ResumeWithoutPlayer));
    assert_eq!(check_loaded(true, true, true, true), Err(OpenRefusal::BarClash));
    assert_eq!(check_loaded(false, false, true, true), Err(OpenRefusal::BarClash));
    assert_eq!(check_loaded(true, true, true, false), Ok(()));
    assert_eq!(check_loaded(false, false, false, true), Ok(()));
}

fn switches_of(a: &[&str]) -> Switches {
    switches(&scan_args(&args(a)))
}

#[test]
fn switches_start_from_the_defaults() {
    assert_eq!(
        switches_of(&[]),
        Switches {
            seed: 1337,
            sea_level: 128,
            width: 1600,
            height: 900,
            taa_frames: 32,
            reference: 0,
            shaft_texel: 4,
            max_lod: 4,
            fade_schedule: FadeSchedule::Smoothstep,
            tone_map_aces: false,
            grade_warm: false,
            grade_cine: false,
            hotbar: 4,
            water_sec_scale: 2,
            sun_softness: 0,
            surface_debug: 0,
            shadow_pass: true,
            probe_tap: false,
            probe_ambient: false,
        }
    );
}

#[test]
fn hotbar_clamps_to_the_last_slot_and_keeps_its_slot_on_no_number() {
    assert_eq!(switches_of(&["--hotbar", "12"]).hotbar, 9);
    assert_eq!(switches_of(&["--hotbar", "+7"]).hotbar, 7);
    assert_eq!(switches_of(&["--hotbar", "x"]).hotbar, 4);
    assert_eq!(switches_of(&["--hotbar", "3", "--hotbar", "bad"]).hotbar, 3);
    assert_eq!(switches_of(&["--hotbar", "2", "--hotbar", "99999999999999999999999"]).hotbar, 2);
}

#[test]
fn water_sec_scale_takes_only_one_two_or_four() {
    assert_eq!(switches_of(&["--water-sec-scale", "4"]).water_sec_scale, 4);
    assert_eq!(switches_of(&["--water-sec-scale", "3"]).water_sec_scale, 2);
    assert_eq!(switches_of(&["--water-sec-scale", "1", "--water-sec-scale", "8"]).water_sec_scale, 1);
}

#[test]
fn softness_and_debug_views_go_by_name() {
    assert_eq!(switches_of(&["--sun-softness", "wide"]).sun_softness, 2);
    assert_eq!(switches_of(&["--sun-softness", "narrow"]).sun_softness, 1);
    assert_eq!(switches_of(&["--sun-softness", "wide", "--sun-softness", "bogus"]).sun_softness, 0);
    assert_eq!(switches_of(&["--surface-debug", "water-faces"]).surface_debug, 5);
    assert_eq!(switches_of(&["--surface-debug", "refraction"]).surface_debug, 7);
    assert_eq!(switches_of(&["--surface-debug", "nope"]).surface_debug, 0);
}

#[test]
fn retired_shadow_switch_and_probe_ambient() {
    assert!(switches_of(&["--no-shadow-pass"]).shadow_pass);
    let s = switches_of(&["--probe-ambient"]);
    assert!(s.probe_tap && s.probe_ambient);
    let s = switches_of(&["--probe-tap"]);
    assert!(s.probe_tap && !s.probe_ambient);
}

#[test]
fn numbers_read_as_std_reads_them_and_keep_the_old_value_otherwise() {
    assert_eq!(switches_of(&["--seed", "-42"]).seed, -42);
    assert_eq!(switches_of(&["--seed", "+7"]).seed, 7);
    assert_eq!(switches_of(&["--seed", "-+7"]).seed, 1337);
    assert_eq!(switches_of(&["--seed", "-2147483648"]).seed, i32::MIN);
    assert_eq!(switches_of(&["--seed", "2147483648"]).seed, 1337);
    assert_eq!(switches_of(&["--seed", "5", "--seed", "x"]).seed, 5);
    assert_eq!(switches_of(&["--sea-level", "64", "--no-water"]).sea_level, 0);
    assert_eq!(switches_of(&["--no-water", "--sea-level", "90"]).sea_level, 90);
    let s = switches_of(&["--width", "800", "--height", "-1", "--taa-frames", "8"]);
    assert_eq!((s.width, s.height, s.taa_frames), (800, 900, 8));
    assert_eq!(switches_of(&["--reference", "4"]).reference, 4);
    assert_eq!(switches_of(&["--reference", "four"]).reference, 8);
}

#[test]
fn shaft_texel_clamps_and_looks_go_by_name() {
    assert_eq!(switches_of(&["--shaft-texel", "100"]).shaft_texel, 64);
    assert_eq!(switches_of(&["--shaft-texel", "-3"]).shaft_texel, 1);
    assert_eq!(switches_of(&["--shaft-texel", "x"]).shaft_texel, 4);
    assert!(switches_of(&["--tone-map", "aces"]).tone_map_aces);
    assert!(!switches_of(&["--tone-map", "aces", "--tone-map", "filmic"]).tone_map_aces);
    let s = switches_of(&["--grade", "cine"]);
    assert!(s.grade_cine && !s.grade_warm);
}

fn toggle(a: &[&str], name: &str) -> bool {
    let names = toggle_names();
    let values = toggles(&scan_args(&args(a)));
    assert_eq!(names.len(), values.len());
    let k = names.iter().position(|n| *n == name).unwrap();
    values[k]
}

#[test]
fn on_off_switches_start_at_their_defaults() {
    assert!(toggle(&[], "water_reflect"));
    assert!(!toggle(&[], "soft_shadows"));
    assert!(toggle(&[], "light_rgb"));
    assert!(!toggle(&[], "hud"));
    assert!(toggle(&[], "cross_fade"));
}

#[test]
fn on_off_switches_follow_the_last_flag() {
    assert!(!toggle(&["--no-water-reflect"], "water_reflect"));
    assert!(!toggle(&["--no-light-rgb"], "light_rgb"));
    assert!(toggle(&["--soft-shadows"], "soft_shadows"));
    assert!(!toggle(&["--soft-shadows", "--no-soft-shadows"], "soft_shadows"));
    assert!(toggle(&["--repaired-lighting", "--legacy-lighting"], "legacy_lighting"));
    assert!(!toggle(&["--no-fade"], "cross_fade"));
    assert!(toggle(&["--hud"], "hud"));
    assert!(!toggle(&["--no-probe-shadow"], "bounce_shadow"));
    assert!(!toggle(&["--no-ao", "--no-physics"], "physics"));
}

#[test]
fn levels_of_detail_read_a_byte_and_a_schedule_name() {
    assert_eq!(switches_of(&["--max-lod", "6"]).max_lod, 6);
    assert_eq!(switches_of(&["--max-lod", "300"]).max_lod, 4);
    assert_eq!(switches_of(&["--fade-schedule", "smootherstep"]).fade_schedule, FadeSchedule::Smootherstep);
    assert_eq!(
        switches_of(&["--fade-schedule", "smootherstep", "--fade-schedule", "linear"]).fade_schedule,
        FadeSchedule::Smootherstep
    );
}
