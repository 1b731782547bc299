use voxelcraft::menu::{Action, Key, Nav, Page, Screen, Setting};

#[test]
fn experimental_settings() {
    for s in [
        Setting::CompactShade,
        Setting::GlassReflect,
        Setting::WaterLook,
        Setting::WindSway,
        Setting::SoftShadows,
    ] {
        assert!(s.experimental());
    }
    for s in [Setting::Scale, Setting::Fov, Setting::Grade, Setting::Ambient, Setting::Tone, Setting::IsolateGlass, Setting::ShadowPass] {
        assert!(!s.experimental());
    }
}

#[test]
fn nav_starts_on_the_title() {
    let n = Nav::new();
    assert_eq!(n.screen, Screen::Title);
    assert_eq!(n.page, Page::Display);
    assert_eq!(n.focus, 0);
    assert!(!n.experiments_locked);
}

#[test]
fn cancel_goes_back_to_where_settings_opened() {
    let mut n = Nav::new();
    n.pause();
    n.page = Page::Appearance;
    n.open_settings();
    assert_eq!(n.screen, Screen::Settings);
    assert_eq!(n.focus, 2);
    n.cancel();
    assert_eq!(n.screen, Screen::Pause);
    assert_eq!(n.focus, 0);
    assert_eq!(n.page, Page::Appearance);
}

#[test]
fn dismiss_quit_goes_back_even_when_asked_twice() {
    let mut n = Nav::new();
    n.open_settings();
    n.confirm_quit();
    n.confirm_quit();
    assert_eq!(n.screen, Screen::ConfirmQuit);
    n.dismiss_quit();
    assert_eq!(n.screen, Screen::Settings);
}

#[test]
fn title_and_pause_actions() {
    let n = Nav::new();
    assert_eq!(n.actions(), vec![Action::Play, Action::Settings, Action::Quit]);
    let mut n = Nav::new();
    n.pause();
    assert_eq!(n.actions(), vec![Action::Resume, Action::Settings, Action::Quit]);
    n.confirm_quit();
    assert_eq!(n.actions(), vec![Action::Back, Action::QuitAnyway]);
    n.screen = Screen::Playing;
    assert!(n.actions().is_empty());
}

#[test]
fn settings_actions_list_tabs_rows_and_buttons() {
    let mut n = Nav::new();
    n.page = Page::Experimental;
    n.open_settings();
    let a = n.actions();
    assert_eq!(a.len(), 5 + 2 * 3 + 3);
    assert_eq!(a[0], Action::Tab(Page::Display));
    assert_eq!(a[4], Action::Tab(Page::Effects));
    assert_eq!(a[5], Action::Adjust(Setting::CompactShade, -1));
    assert_eq!(a[6], Action::Adjust(Setting::CompactShade, 1));
    assert_eq!(a[7], Action::Adjust(Setting::CompactShade, 1));
    assert_eq!(a[8], Action::Adjust(Setting::SoftShadows, -1));
    assert_eq!(a[11], Action::Defaults);
    assert_eq!(a[12], Action::Cancel);
    assert_eq!(a[13], Action::Apply);
    n.page = Page::Appearance;
    assert_eq!(n.actions().len(), 5 + 5 * 3 + 3);
}

#[test]
fn keys_move_the_focus_round() {
    let mut n = Nav::new();
    assert_eq!(n.key(Key::ArrowUp), None);
    assert_eq!(n.focus, 2);
    assert_eq!(n.key(Key::ArrowDown), None);
    assert_eq!(n.focus, 0);
    assert_eq!(n.key(Key::Tab), None);
    assert_eq!(n.focus, 1);
    assert_eq!(n.key(Key::Enter), Some(Action::Settings));
    n.focus = 7;
    assert_eq!(n.key(Key::Space), Some(Action::Settings));
    assert_eq!(n.focus, 1);
    assert_eq!(n.key(Key::Other), None);
}

#[test]
fn escape_answers_per_screen() {
    let mut n = Nav::new();
    assert_eq!(n.key(Key::Escape), None);
    n.open_settings();
    assert_eq!(n.key(Key::Escape), Some(Action::Cancel));
    n.pause();
    assert_eq!(n.key(Key::Escape), Some(Action::Resume));
    n.confirm_quit();
    assert_eq!(n.key(Key::Escape), Some(Action::Back));
}

#[test]
fn left_and_right_adjust_the_focused_setting() {
    let mut n = Nav::new();
    n.open_settings();
    n.focus = 6;
    assert_eq!(n.key(Key::ArrowLeft), Some(Action::Adjust(Setting::Scale, -1)));
    assert_eq!(n.key(Key::ArrowRight), Some(Action::Adjust(Setting::Scale, 1)));
    n.focus = 0;
    assert_eq!(n.key(Key::ArrowLeft), None);
}

#[test]
fn keys_on_an_empty_screen_do_nothing() {
    let mut n = Nav::new();
    n.screen = Screen::Loading;
    n.focus = 4;
    assert_eq!(n.key(Key::ArrowDown), None);
    assert_eq!(n.focus, 4);
}

#[test]
fn experiments_lock_once_play_starts() {
    let mut n = Nav::new();
    assert!(n.may_adjust(Setting::WindSway));
    n.lock_experiments();
    assert!(n.experiments_locked);
    assert!(!n.may_adjust(Setting::WindSway));
    assert!(!n.may_adjust(Setting::CompactShade));
    assert!(n.may_adjust(Setting::IsolateGlass));
    assert!(n.may_adjust(Setting::Fov));
    n.pause();
    n.open_settings();
    n.cancel();
    assert!(n.experiments_locked);
}
