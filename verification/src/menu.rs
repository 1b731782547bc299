//! The menus: which screen shows, which settings page is open, which item has focus, and
//! what each key asks for.

use vstd::prelude::*;

verus! {

#[derive(Clone, Copy, Debug, PartialEq, Eq, Structural)]
pub enum Screen {
    Title,
    Playing,
    Pause,
    Settings,
    Loading,
    ConfirmQuit,
}

#[derive(Clone, Copy, Debug, PartialEq, Eq, Structural)]
pub enum Page {
    Display,
    Graphics,
    Appearance,
    Experimental,
    Effects,
}

#[derive(Clone, Copy, Debug, PartialEq, Eq, Structural)]
pub enum Setting {
    Scale,
    Fov,
    Vsync,
    Taa,
    Shadows,
    Ao,
    Reflections,
    Refraction,
    Tone,
    Grade,
    Strength,
    Fog,
    Ambient,
    CompactShade,
    IsolateGlass,
    ShadowPass,
    GlassReflect,
    WaterLook,
    WindSway,
    SoftShadows,
}

impl Setting {
    /// The five shader experiments: off by default, changeable on the title only. The glass
    /// split and the shadow pass are architecture, not experiments.
    pub open spec fn is_experimental(self) -> bool {
        match self {
            Setting::CompactShade | Setting::GlassReflect | Setting::WaterLook | Setting::WindSway
            | Setting::SoftShadows => true,
            _ => false,
        }
    }

    pub fn experimental(self) -> (b: bool)
        ensures
            b == self.is_experimental(),
    {
        match self {
            Setting::CompactShade | Setting::GlassReflect | Setting::WaterLook | Setting::WindSway
            | Setting::SoftShadows => true,
            _ => false,
        }
    }
}

#[derive(Clone, Copy, Debug, PartialEq, Eq, Structural)]
pub enum Action {
    Play,
    Resume,
    Settings,
    Quit,
    QuitAnyway,
    Back,
    Tab(Page),
    Adjust(Setting, i32),
    Apply,
    Cancel,
    Defaults,
}

/// The keys the menus answer to.
#[derive(Clone, Copy, Debug, PartialEq, Eq, Structural)]
pub enum Key {
    Escape,
    ArrowUp,
    ArrowDown,
    ArrowLeft,
    ArrowRight,
    Tab,
    Enter,
    Space,
    Other,
}

/// Position of a page among the settings tabs.
pub open spec fn page_index(p: Page) -> nat {
    match p {
        Page::Display => 0,
        Page::Graphics => 1,
        Page::Appearance => 2,
        Page::Experimental => 3,
        Page::Effects => 4,
    }
}

/// The settings tabs, left to right.
pub open spec fn tabs() -> Seq<Page> {
    seq![Page::Display, Page::Graphics, Page::Appearance, Page::Experimental, Page::Effects]
}

/// The settings a page lists, top to bottom.
pub open spec fn page_settings(p: Page) -> Seq<Setting> {
    match p {
        Page::Display => seq![Setting::Scale, Setting::Fov, Setting::Vsync, Setting::Taa],
        Page::Graphics => seq![
            Setting::Shadows,
            Setting::Ao,
            Setting::Reflections,
            Setting::Refraction,
        ],
        Page::Appearance => seq![
            Setting::Tone,
            Setting::Grade,
            Setting::Strength,
            Setting::Fog,
            Setting::Ambient,
        ],
        Page::Experimental => seq![Setting::CompactShade, Setting::SoftShadows],
        Page::Effects => seq![Setting::GlassReflect, Setting::WaterLook, Setting::WindSway],
    }
}

/// The three items of a setting's row: lower, the value (raises), raise.
pub open spec fn row_actions(s: Setting) -> Seq<Action> {
    seq![Action::Adjust(s, -1i32), Action::Adjust(s, 1i32), Action::Adjust(s, 1i32)]
}

/// The items of every row of a list of settings, row by row.
pub open spec fn rows_actions(ss: Seq<Setting>) -> Seq<Action>
    decreases ss.len(),
{
    if ss.len() == 0 {
        Seq::empty()
    } else {
        rows_actions(ss.drop_last()) + row_actions(ss.last())
    }
}

proof fn lemma_rows_actions_len(ss: Seq<Setting>)
    ensures
        rows_actions(ss).len() == 3 * ss.len(),
    decreases ss.len(),
{
    if ss.len() > 0 {
        lemma_rows_actions_len(ss.drop_last());
    }
}

/// A screen has no more than two dozen items.
proof fn lemma_screen_actions_len(screen: Screen, page: Page)
    ensures
        screen_actions(screen, page).len() <= 24,
{
    lemma_rows_actions_len(page_settings(page));
}

/// What the items of a screen do, in focus order.
pub open spec fn screen_actions(screen: Screen, page: Page) -> Seq<Action> {
    match screen {
        Screen::Title => seq![Action::Play, Action::Settings, Action::Quit],
        Screen::Pause => seq![Action::Resume, Action::Settings, Action::Quit],
        Screen::Settings => tabs().map_values(|p: Page| Action::Tab(p)) + rows_actions(
            page_settings(page),
        ) + seq![Action::Defaults, Action::Cancel, Action::Apply],
        Screen::ConfirmQuit => seq![Action::Back, Action::QuitAnyway],
        Screen::Playing | Screen::Loading => Seq::empty(),
    }
}

/// What Escape asks for on a screen.
pub open spec fn escape_action(screen: Screen) -> Option<Action> {
    match screen {
        Screen::Settings => Some(Action::Cancel),
        Screen::Pause => Some(Action::Resume),
        Screen::ConfirmQuit => Some(Action::Back),
        _ => None,
    }
}

/// Where the menus stand: the screen, the settings page, the focused item, and the screens
/// that closing the settings and answering the quit question go back to.
pub struct Nav {
    pub screen: Screen,
    pub page: Page,
    pub focus: usize,
    pub experiments_locked: bool,
    pub return_to: Screen,
    pub quit_return_to: Screen,
}

impl Nav {
    /// The menus with the settings open on the page last shown, its tab focused.
    pub open spec fn opened(self) -> Nav {
        Nav { screen: Screen::Settings, focus: page_index(self.page) as usize, return_to: self.screen, ..self }
    }

    /// The menus with the settings closed unapplied.
    pub open spec fn cancelled(self) -> Nav {
        Nav { screen: self.return_to, focus: 0, ..self }
    }

    /// The menus paused.
    pub open spec fn paused(self) -> Nav {
        Nav { screen: Screen::Pause, focus: 0, ..self }
    }

    /// The menus asking whether to quit.
    pub open spec fn asking_quit(self) -> Nav {
        Nav {
            screen: Screen::ConfirmQuit,
            focus: 0,
            quit_return_to: if self.screen == Screen::ConfirmQuit {
                self.quit_return_to
            } else {
                self.screen
            },
            ..self
        }
    }

    /// The menus after "keep playing".
    pub open spec fn quit_dismissed(self) -> Nav {
        Nav { screen: self.quit_return_to, focus: 0, ..self }
    }

    /// The title screen, on the first settings page.
    pub fn new() -> (n: Nav)
        ensures
            n == (Nav {
                screen: Screen::Title,
                page: Page::Display,
                focus: 0,
                experiments_locked: false,
                return_to: Screen::Title,
                quit_return_to: Screen::Title,
            }),
    {
        Nav {
            screen: Screen::Title,
            page: Page::Display,
            focus: 0,
            experiments_locked: false,
            return_to: Screen::Title,
            quit_return_to: Screen::Title,
        }
    }

    /// Lock the shader experiments, as starting a session does.
    pub fn lock_experiments(&mut self)
        ensures
            *final(self) == (Nav { experiments_locked: true, ..*old(self) }),
    {
        self.experiments_locked = true;
    }

    /// Whether the draft's setting `s` may be changed: an experiment may not once locked.
    pub fn may_adjust(&self, s: Setting) -> (b: bool)
        ensures
            b == !(self.experiments_locked && s.is_experimental()),
    {
        !(self.experiments_locked && s.experimental())
    }

    /// Open the settings on the page last shown, its tab focused.
    pub fn open_settings(&mut self)
        ensures
            *final(self) == old(self).opened(),
    {
        self.return_to = self.screen;
        self.screen = Screen::Settings;
        self.focus = match self.page {
            Page::Display => 0,
            Page::Graphics => 1,
            Page::Appearance => 2,
            Page::Experimental => 3,
            Page::Effects => 4,
        };
    }

    /// Close the settings without applying them.
    pub fn cancel(&mut self)
        ensures
            *final(self) == old(self).cancelled(),
    {
        self.screen = self.return_to;
        self.focus = 0;
    }

    pub fn pause(&mut self)
        ensures
            *final(self) == old(self).paused(),
    {
        self.screen = Screen::Pause;
        self.focus = 0;
    }

    /// Ask whether to quit; asking again keeps the screen to go back to.
    pub fn confirm_quit(&mut self)
        ensures
            *final(self) == old(self).asking_quit(),
    {
        if self.screen != Screen::ConfirmQuit {
            self.quit_return_to = self.screen;
        }
        self.screen = Screen::ConfirmQuit;
        self.focus = 0;
    }

    /// Answer the quit question with "keep playing".
    pub fn dismiss_quit(&mut self)
        ensures
            *final(self) == old(self).quit_dismissed(),
    {
        self.screen = self.quit_return_to;
        self.focus = 0;
    }

    /// What the items of the current screen do, in focus order.
    pub fn actions(&self) -> (v: Vec<Action>)
        ensures
            v@ == screen_actions(self.screen, self.page),
    {
        let mut v: Vec<Action> = Vec::new();
        match self.screen {
            Screen::Title => {
                v.push(Action::Play);
                v.push(Action::Settings);
                v.push(Action::Quit);
                assert(v@ =~= screen_actions(self.screen, self.page));
            },
            Screen::Pause => {
                v.push(Action::Resume);
                v.push(Action::Settings);
                v.push(Action::Quit);
                assert(v@ =~= screen_actions(self.screen, self.page));
            },
            Screen::Settings => {
                v.push(Action::Tab(Page::Display));
                v.push(Action::Tab(Page::Graphics));
                v.push(Action::Tab(Page::Appearance));
                v.push(Action::Tab(Page::Experimental));
                v.push(Action::Tab(Page::Effects));
                assert(v@ =~= tabs().map_values(|p: Page| Action::Tab(p)));
                let ghost head = v@;
                let settings = page_rows(self.page);
                let mut i: usize = 0;
                while i < settings.len()
                    invariant
                        i <= settings@.len(),
                        settings@ == page_settings(self.page),
                        v@ == head + rows_actions(settings@.take(i as int)),
                    decreases settings@.len() - i,
                {
                    let s = settings[i];
                    v.push(Action::Adjust(s, -1));
                    v.push(Action::Adjust(s, 1));
                    v.push(Action::Adjust(s, 1));
                    assert(settings@.take(i + 1).drop_last() =~= settings@.take(i as int));
                    assert(v@ =~= head + rows_actions(settings@.take(i + 1)));
                    i += 1;
                }
                assert(settings@.take(i as int) =~= settings@);
                v.push(Action::Defaults);
                v.push(Action::Cancel);
                v.push(Action::Apply);
                assert(v@ =~= screen_actions(self.screen, self.page));
            },
            Screen::ConfirmQuit => {
                v.push(Action::Back);
                v.push(Action::QuitAnyway);
                assert(v@ =~= screen_actions(self.screen, self.page));
            },
            Screen::Playing | Screen::Loading => {
                assert(v@ =~= screen_actions(self.screen, self.page));
            },
        }
        v
    }

    /// Answer a key: Escape asks to leave the screen; the arrows and Tab move the focus,
    /// round the items; Enter and Space choose the focused item; left and right lower or
    /// raise the focused setting.
    pub fn key(&mut self, key: Key) -> (a: Option<Action>)
        ensures
            final(self).screen == old(self).screen,
            final(self).page == old(self).page,
            final(self).experiments_locked == old(self).experiments_locked,
            final(self).return_to == old(self).return_to,
            final(self).quit_return_to == old(self).quit_return_to,
            ({
                let items = screen_actions(old(self).screen, old(self).page);
                let n: int = items.len() as int;
                let f: int = old(self).focus as int % n;
                if key == Key::Escape {
                    a == escape_action(old(self).screen) && final(self).focus == old(self).focus
                } else if n == 0 {
                    a is None && final(self).focus == old(self).focus
                } else {
                    &&& final(self).focus < n
                    &&& match key {
                        Key::ArrowUp => final(self).focus == (f + n - 1) % n && a is None,
                        Key::ArrowDown | Key::Tab => final(self).focus == (f + 1) % n
                            && a is None,
                        Key::Enter | Key::Space => final(self).focus == f && a == Some(items[f]),
                        Key::ArrowLeft | Key::ArrowRight => final(self).focus == f && a == match items[f] {
                            Action::Adjust(s, _) => Some(
                                Action::Adjust(s, if key == Key::ArrowLeft { -1i32 } else { 1i32 }),
                            ),
                            _ => None,
                        },
                        _ => final(self).focus == f && a is None,
                    }
                }
            }),
    {
        if key == Key::Escape {
            return match self.screen {
                Screen::Settings => Some(Action::Cancel),
                Screen::Pause => Some(Action::Resume),
                Screen::ConfirmQuit => Some(Action::Back),
                _ => None,
            };
        }
        let items = self.actions();
        let n = items.len();
        proof {
            lemma_screen_actions_len(self.screen, self.page);
        }
        if n == 0 {
            return None;
        }
        self.focus = self.focus % n;
        match key {
            Key::ArrowUp => {
                self.focus = (self.focus + n - 1) % n;
            },
            Key::ArrowDown | Key::Tab => {
                self.focus = (self.focus + 1) % n;
            },
            Key::Enter | Key::Space => {
                return Some(items[self.focus]);
            },
            Key::ArrowLeft | Key::ArrowRight => {
                if let Action::Adjust(s, _) = items[self.focus] {
                    return Some(Action::Adjust(s, if key == Key::ArrowLeft { -1 } else { 1 }));
                }
            },
            _ => {},
        }
        None
    }
}

/// Closing the settings unapplied goes back to the screen they were opened from, on the
/// page they showed.
pub proof fn law_cancel_undoes_open(n: Nav)
    ensures
        n.opened().cancelled().screen == n.screen,
        n.opened().cancelled().page == n.page,
{
}

/// "Keep playing" goes back to the screen the quit question was asked from, however often
/// it was asked.
pub proof fn law_dismiss_undoes_confirm(n: Nav)
    requires
        n.screen != Screen::ConfirmQuit,
    ensures
        n.asking_quit().quit_dismissed().screen == n.screen,
        n.asking_quit().asking_quit().quit_dismissed().screen == n.screen,
{
}

/// The settings a page lists, top to bottom.
fn page_rows(p: Page) -> (v: Vec<Setting>)
    ensures
        v@ == page_settings(p),
{
    match p {
        Page::Display => vec![Setting::Scale, Setting::Fov, Setting::Vsync, Setting::Taa],
        Page::Graphics => vec![Setting::Shadows, Setting::Ao, Setting::Reflections, Setting::Refraction],
        Page::Appearance => vec![
            Setting::Tone,
            Setting::Grade,
            Setting::Strength,
            Setting::Fog,
            Setting::Ambient,
        ],
        Page::Experimental => vec![Setting::CompactShade, Setting::SoftShadows],
        Page::Effects => vec![Setting::GlassReflect, Setting::WaterLook, Setting::WindSway],
    }
}


/// The shader experiments are exactly the settings of the two lab pages, Experimental and
/// Effects: no Display, Graphics or Appearance setting is one, so locking the experiments at
/// Play never locks an ordinary setting such as the sun shadows.
pub proof fn law_experiments_are_the_lab_pages(s: Setting)
    ensures
        s.is_experimental() <==> (page_settings(Page::Experimental).contains(s) || page_settings(
            Page::Effects,
        ).contains(s)),
        page_settings(Page::Display).contains(s) || page_settings(Page::Graphics).contains(s)
            || page_settings(Page::Appearance).contains(s) ==> !s.is_experimental(),
{
    let e = page_settings(Page::Experimental);
    let f = page_settings(Page::Effects);
    let d = page_settings(Page::Display);
    let g = page_settings(Page::Graphics);
    let a = page_settings(Page::Appearance);
    if s.is_experimental() {
        match s {
            Setting::CompactShade => assert(e[0] == s),
            Setting::SoftShadows => assert(e[1] == s),
            Setting::GlassReflect => assert(f[0] == s),
            Setting::WaterLook => assert(f[1] == s),
            _ => assert(f[2] == s),
        }
    }
    if d.contains(s) || g.contains(s) || a.contains(s) {
        if d.contains(s) {
            let k = choose|k: int| 0 <= k < d.len() && d[k] == s;
        } else if g.contains(s) {
            let k = choose|k: int| 0 <= k < g.len() && g[k] == s;
        } else {
            let k = choose|k: int| 0 <= k < a.len() && a[k] == s;
        }
    }
    if e.contains(s) {
        let k = choose|k: int| 0 <= k < e.len() && e[k] == s;
    }
    if f.contains(s) {
        let k = choose|k: int| 0 <= k < f.len() && f[k] == s;
    }
}

/// Once the experiments lock, a setting may still be changed exactly when it is not on a
/// lab page.
pub proof fn law_locked_menu_adjusts_all_but_the_labs(n: Nav, s: Setting)
    requires
        n.experiments_locked,
    ensures
        !(n.experiments_locked && s.is_experimental()) <==> !(page_settings(Page::Experimental).contains(s)
            || page_settings(Page::Effects).contains(s)),
{
    law_experiments_are_the_lab_pages(s);
}
} // verus!
