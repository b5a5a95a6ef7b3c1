//! The cards: what each shows, and where a touch leads.
use crate::portal::PortalOutcome;
use crate::settings::{Field, SavePlan, Settings, Store, FIELD_ORDER};
use crate::text::decimal_text;
use crate::touch::TouchEvent;
use crate::ui::{
    menu_row_at, row_zone, MenuRow, NoticeColor, RowZone, SettingEntry, UiState,
    SETTINGS_PAGE_ROWS,
};
use vstd::prelude::*;

verus! {

/// Rows of the configure card.
pub const CONFIGURE_ROWS: usize = 3;

/// The row that opens the setup network.
pub const ROW_WIFI: usize = 0;

/// The row that steps the volume.
pub const ROW_VOLUME: usize = 1;

/// The row that erases the settings.
pub const ROW_RESET: usize = 2;

/// What one tap changes the volume by.
pub const VOLUME_STEP: u8 = 5;

/// How often joining the network is waited for.
pub const WIFI_JOIN_TICKS: usize = 50;

/// The card the user is looking at. Swiping left walks forward through the
/// stack, swiping right walks back.
#[derive(Debug, Clone, Copy, PartialEq, Eq, Structural)]
pub enum Screen {
    Assistant,
    Configure,
    Settings,
}

// ---------- The settings card ----------
/// What stands for a setting on the card: a stand-in if it is not set, and never
/// a secret itself.
pub open spec fn shown_value(f: Field, value: Seq<char>) -> Seq<char> {
    if value.len() == 0 {
        "not set"@
    } else if f.secret() {
        "********"@
    } else {
        value
    }
}

/// Whether an entry says the given things.
pub open spec fn entry_says(
    e: SettingEntry,
    label: Seq<char>,
    value: Seq<char>,
    placeholder: bool,
) -> bool {
    e.label@ == label && e.value@ == value && e.placeholder == placeholder
}

/// Whether `entries` list what `settings` hold: every field in order, then the
/// volume, then where the settings come from.
pub open spec fn lists(
    entries: Seq<SettingEntry>,
    settings: Settings,
    from_flash: bool,
) -> bool {
    &&& entries.len() == 11
    &&& forall|i: int|
        0 <= i < 9 ==> entry_says(
            #[trigger] entries[i],
            Field::at(i).label_text(),
            shown_value(Field::at(i), settings.text(Field::at(i))),
            settings.text(Field::at(i)).len() == 0,
        )
    &&& entry_says(
        entries[9],
        "Speaker volume"@,
        crate::text::decimal(settings.volume as nat),
        false,
    )
    &&& entry_says(
        entries[10],
        "Source"@,
        if from_flash {
            "saved on device"@
        } else {
            "not configured"@
        },
        !from_flash,
    )
}

/// The list of what the device is configured with. Secrets are shown as a fixed
/// run of asterisks.
pub fn setting_entries(settings: &Settings, from_flash: bool) -> (entries: Vec<SettingEntry>)
    ensures
        lists(entries@, *settings, from_flash),
{
    let mut entries: Vec<SettingEntry> = Vec::new();
    let mut i: usize = 0;
    while i < 9
        invariant
            i <= 9,
            entries@.len() == i,
            forall|k: int|
                0 <= k < i ==> entry_says(
                    #[trigger] entries@[k],
                    Field::at(k).label_text(),
                    shown_value(Field::at(k), settings.text(Field::at(k))),
                    settings.text(Field::at(k)).len() == 0,
                ),
        decreases 9 - i,
    {
        let field = FIELD_ORDER[i];
        let raw = settings.get(field);
        let blank = raw.is_empty();
        let value = if blank {
            "not set".to_owned()
        } else if field.is_secret() {
            "********".to_owned()
        } else {
            raw.to_owned()
        };
        entries.push(SettingEntry { label: field.label().to_owned(), value, placeholder: blank });
        i += 1;
    }
    entries.push(
        SettingEntry {
            label: "Speaker volume".to_owned(),
            value: decimal_text(settings.volume as u64),
            placeholder: false,
        },
    );
    let source = if from_flash {
        "saved on device"
    } else {
        "not configured"
    };
    entries.push(
        SettingEntry {
            label: "Source".to_owned(),
            value: source.to_owned(),
            placeholder: !from_flash,
        },
    );
    entries
}

/// The card tells nothing of a secret but whether it is set: devices that differ
/// only in what their secrets are show the same.
pub proof fn card_keeps_secrets(
    a: Settings,
    b: Settings,
    ea: Seq<SettingEntry>,
    eb: Seq<SettingEntry>,
    from_flash: bool,
    i: int,
)
    requires
        lists(ea, a, from_flash),
        lists(eb, b, from_flash),
        a.volume == b.volume,
        forall|f: Field|
            if f.secret() {
                a.text(f).len() == 0 <==> b.text(f).len() == 0
            } else {
                a.text(f) == b.text(f)
            },
        0 <= i < 11,
    ensures
        entry_says(ea[i], eb[i].label@, eb[i].value@, eb[i].placeholder),
{
    if i < 9 {
        let f = Field::at(i);
        assert(if f.secret() {
            a.text(f).len() == 0 <==> b.text(f).len() == 0
        } else {
            a.text(f) == b.text(f)
        });
        assert(entry_says(
            ea[i],
            f.label_text(),
            shown_value(f, a.text(f)),
            a.text(f).len() == 0,
        ));
        assert(entry_says(
            eb[i],
            f.label_text(),
            shown_value(f, b.text(f)),
            b.text(f).len() == 0,
        ));
    }
}

/// The first entry of the last page.
pub open spec fn last_page_of(count: int) -> int {
    if count <= 0 {
        0
    } else {
        (count - 1) / 3 * 3
    }
}

/// The first entry of the last page.
pub fn last_page(count: usize) -> (offset: usize)
    ensures
        offset == last_page_of(count as int),
{
    if count == 0 {
        0
    } else {
        (count - 1) / SETTINGS_PAGE_ROWS * SETTINGS_PAGE_ROWS
    }
}

/// The first entry that is shown after a touch: a swipe up or down turns a page.
pub open spec fn turned(event: TouchEvent, offset: int, count: int) -> int {
    if event == TouchEvent::SwipeUp {
        if offset + 3 <= last_page_of(count) {
            offset + 3
        } else {
            last_page_of(count)
        }
    } else if event == TouchEvent::SwipeDown {
        if offset >= 3 {
            offset - 3
        } else {
            0
        }
    } else {
        offset
    }
}

/// Where a touch on the settings card leads: to which card, and to which page.
pub fn on_settings_touch(event: TouchEvent, offset: usize, count: usize) -> (r: (Screen, usize))
    requires
        offset + 3 <= usize::MAX,
    ensures
        r.0 == (if event == TouchEvent::SwipeRight {
            Screen::Configure
        } else {
            Screen::Settings
        }),
        r.1 == turned(event, offset as int, count as int),
{
    let max_offset: usize = last_page(count);
    match event {
        TouchEvent::SwipeRight => (Screen::Configure, offset),
        TouchEvent::SwipeUp => {
            let next: usize = offset + SETTINGS_PAGE_ROWS;
            (
                Screen::Settings,
                if next <= max_offset {
                    next
                } else {
                    max_offset
                },
            )
        },
        TouchEvent::SwipeDown => (
            Screen::Settings,
            if offset >= SETTINGS_PAGE_ROWS {
                offset - SETTINGS_PAGE_ROWS
            } else {
                0
            },
        ),
        _ => (Screen::Settings, offset),
    }
}

/// Pages stay on their boundaries: no touch leads to a part of a page, or past
/// the last one.
pub proof fn pages_are_turned_whole(event: TouchEvent, offset: int, count: int)
    requires
        0 <= offset <= last_page_of(count),
        offset % 3 == 0,
    ensures
        0 <= turned(event, offset, count) <= last_page_of(count),
        turned(event, offset, count) % 3 == 0,
{
}

/// The first entry that is shown after `n` swipes up from the first page.
pub open spec fn after_swipes(n: nat, count: int) -> int
    decreases n,
{
    if n == 0 {
        0
    } else {
        turned(TouchEvent::SwipeUp, after_swipes((n - 1) as nat, count), count)
    }
}

proof fn lemma_after_swipes(n: nat, count: int)
    requires
        3 * n <= last_page_of(count),
    ensures
        after_swipes(n, count) == 3 * n,
    decreases n,
{
    if n > 0 {
        lemma_after_swipes((n - 1) as nat, count);
    }
}

/// Every entry can be swiped to: one swipe for each page before its own.
pub proof fn every_entry_can_be_reached(count: int, i: int)
    requires
        0 <= i < count,
    ensures
        ({
            let first = after_swipes((i / 3) as nat, count);
            first <= i < first + 3
        }),
{
    lemma_after_swipes((i / 3) as nat, count);
}

// ---------- The configure card ----------
/// The configure card.
pub fn configure_menu(settings: &Settings) -> (state: UiState)
    ensures
        state matches UiState::Menu { title, rows } && {
            &&& title@ == "Configure"@
            &&& rows@.len() == CONFIGURE_ROWS
            &&& rows@[0].label@ == "Wi-Fi Setup"@ && rows@[0].value is None && !rows@[0].stepper
                && !rows@[0].danger
            &&& rows@[1].label@ == "volume"@ && rows@[1].stepper && !rows@[1].danger
            &&& rows@[1].value matches Some(v) && v@ == crate::text::decimal(
                settings.volume as nat,
            )
            &&& rows@[2].label@ == "Erase Settings"@ && rows@[2].value is None && !rows@[2].stepper
                && rows@[2].danger
        },
{
    let mut rows: Vec<MenuRow> = Vec::new();
    rows.push(MenuRow::action("Wi-Fi Setup"));
    rows.push(MenuRow::stepper("volume", &decimal_text(settings.volume as u64)));
    rows.push(MenuRow::danger("Erase Settings"));
    UiState::Menu { title: "Configure", rows }
}

/// The volume after a tap in a zone of its row: one step down or up, within 0 to
/// 100.
pub open spec fn stepped(volume: u8, zone: RowZone) -> int {
    let next = match zone {
        RowZone::Decrement => volume - VOLUME_STEP,
        RowZone::Increment => volume + VOLUME_STEP,
        RowZone::Body => volume as int,
    };
    if next < 0 {
        0
    } else if next > 100 {
        100
    } else {
        next
    }
}

/// The volume after a tap in a zone of its row.
pub fn step_volume(volume: u8, zone: RowZone) -> (next: u8)
    ensures
        next == stepped(volume, zone),
        next <= 100,
{
    let delta: i32 = match zone {
        RowZone::Decrement => -(VOLUME_STEP as i32),
        RowZone::Increment => VOLUME_STEP as i32,
        RowZone::Body => 0,
    };
    let next: i32 = volume as i32 + delta;
    if next < 0 {
        0
    } else if next > 100 {
        100
    } else {
        next as u8
    }
}

/// A step up and a step down cancel out, away from the ends of the scale.
pub proof fn volume_steps_cancel_out(volume: u8)
    requires
        volume + VOLUME_STEP <= 100,
    ensures
        stepped(stepped(volume, RowZone::Increment) as u8, RowZone::Decrement) == volume,
{
}

/// What a touch on the configure card asks for.
#[derive(Debug, Clone, Copy, PartialEq, Eq, Structural)]
pub enum ConfigureAction {
    Stay,
    /// To the settings card, once changes are saved.
    OpenSettings,
    /// To the assistant, once changes are saved.
    Back,
    /// Into the setup portal, for good.
    OpenPortal,
    /// The volume is to be this.
    SetVolume(u8),
    /// Erase everything, if the user confirms.
    ConfirmErase,
}

/// What a touch on the configure card asks for.
pub open spec fn configure_action(event: TouchEvent, volume: u8) -> ConfigureAction {
    match event {
        TouchEvent::SwipeLeft => ConfigureAction::OpenSettings,
        TouchEvent::SwipeRight => ConfigureAction::Back,
        TouchEvent::Tap { x, y } => if crate::ui::on_row(x as int, y as int, ROW_WIFI as int) {
            ConfigureAction::OpenPortal
        } else if crate::ui::on_row(x as int, y as int, ROW_VOLUME as int) {
            let next = stepped(volume, crate::ui::zone_at(x as int));
            if next != volume {
                ConfigureAction::SetVolume(next as u8)
            } else {
                ConfigureAction::Stay
            }
        } else if crate::ui::on_row(x as int, y as int, ROW_RESET as int) {
            ConfigureAction::ConfirmErase
        } else {
            ConfigureAction::Stay
        },
        _ => ConfigureAction::Stay,
    }
}

/// What a touch on the configure card asks for, at the present volume.
pub fn on_configure_touch(event: TouchEvent, volume: u8) -> (action: ConfigureAction)
    ensures
        action == configure_action(event, volume),
{
    match event {
        TouchEvent::SwipeLeft => ConfigureAction::OpenSettings,
        TouchEvent::SwipeRight => ConfigureAction::Back,
        TouchEvent::Tap { x, y } => {
            match menu_row_at(x as i32, y as i32, CONFIGURE_ROWS) {
                Some(row) => {
                    if row == ROW_WIFI {
                        ConfigureAction::OpenPortal
                    } else if row == ROW_VOLUME {
                        let next: u8 = step_volume(volume, row_zone(x as i32));
                        if next != volume {
                            ConfigureAction::SetVolume(next)
                        } else {
                            ConfigureAction::Stay
                        }
                    } else {
                        ConfigureAction::ConfirmErase
                    }
                },
                None => {
                    assert(!crate::ui::on_row(x as int, y as int, 0));
                    assert(!crate::ui::on_row(x as int, y as int, 1));
                    assert(!crate::ui::on_row(x as int, y as int, 2));
                    ConfigureAction::Stay
                },
            }
        },
        _ => ConfigureAction::Stay,
    }
}

/// Whether erasing is confirmed: by a tap, and by nothing else in time.
pub fn erase_confirmed(event: Option<TouchEvent>) -> (r: bool)
    ensures
        r == (event matches Some(e) && e is Tap),
{
    match event {
        Some(TouchEvent::Tap { .. }) => true,
        _ => false,
    }
}

// ---------- Walking through the cards ----------
/// Where the user is, and whether there are changes that are not saved yet.
#[derive(Debug, Clone, Copy, PartialEq, Eq, Structural)]
pub struct Cards {
    pub screen: Screen,
    /// The first visible entry of the settings card.
    pub offset: usize,
    /// Whether the volume was changed since it was last saved.
    pub dirty: bool,
    /// Whether the settings in effect came from flash, or were saved to it.
    pub from_flash: bool,
}

/// Where an action on the configure card leads, given whether saving succeeds
/// where there is something to save.
pub open spec fn after_action(cards: Cards, action: ConfigureAction, saves: bool) -> Cards {
    let saved = cards.dirty && saves;
    match action {
        ConfigureAction::OpenSettings => Cards {
            screen: Screen::Settings,
            offset: 0,
            dirty: cards.dirty && !saved,
            from_flash: cards.from_flash || saved,
        },
        ConfigureAction::Back => Cards {
            screen: Screen::Assistant,
            offset: cards.offset,
            dirty: cards.dirty && !saved,
            from_flash: cards.from_flash || saved,
        },
        ConfigureAction::SetVolume(_) => Cards { dirty: true, ..cards },
        _ => cards,
    }
}

impl Cards {
    /// On the assistant card, with nothing to save.
    pub fn new(from_flash: bool) -> (c: Cards)
        ensures
            c == (Cards { screen: Screen::Assistant, offset: 0, dirty: false, from_flash }),
    {
        Cards { screen: Screen::Assistant, offset: 0, dirty: false, from_flash }
    }

    /// Whether the settings are to be written before an action is carried out:
    /// a changed volume is, once, on the way out of the configure card.
    pub fn must_save(&self, action: ConfigureAction) -> (r: bool)
        ensures
            r == (self.dirty && (action is OpenSettings || action is Back)),
    {
        match action {
            ConfigureAction::OpenSettings | ConfigureAction::Back => self.dirty,
            _ => false,
        }
    }

    /// Carries out an action on the configure card; `saved` says whether the
    /// settings were written, where they were to be.
    pub fn on_configure(&mut self, action: ConfigureAction, saved: bool)
        ensures
            *final(self) == after_action(*old(self), action, saved),
    {
        match action {
            ConfigureAction::OpenSettings | ConfigureAction::Back => {
                if self.dirty && saved {
                    self.dirty = false;
                    self.from_flash = true;
                }
            },
            ConfigureAction::SetVolume(_) => {
                self.dirty = true;
            },
            _ => {},
        }
        match action {
            ConfigureAction::OpenSettings => {
                self.offset = 0;
                self.screen = Screen::Settings;
            },
            ConfigureAction::Back => {
                self.screen = Screen::Assistant;
            },
            _ => {},
        }
    }

    /// Takes the settings card back to its last page if it is beyond it.
    pub fn clamp(&mut self, count: usize)
        ensures
            *final(self) == (Cards {
                offset: (if old(self).offset <= last_page_of(count as int) {
                    old(self).offset as int
                } else {
                    last_page_of(count as int)
                }) as usize,
                ..*old(self)
            }),
    {
        let last: usize = last_page(count);
        if self.offset > last {
            self.offset = last;
        }
    }
}

/// A change is not forgotten before it is saved: only a successful save, on the
/// way out, ends its being due.
pub proof fn changes_wait_for_a_save(cards: Cards, action: ConfigureAction, saves: bool)
    requires
        cards.dirty,
    ensures
        !after_action(cards, action, saves).dirty ==> saves && (action is OpenSettings
            || action is Back) && after_action(cards, action, saves).from_flash,
        !saves ==> after_action(cards, action, saves).dirty,
{
}

// ---------- The assistant card ----------
/// What happens while nothing is going on.
#[derive(Debug, Clone, Copy, PartialEq, Eq, Structural)]
pub enum IdleEvent {
    Touch(TouchEvent),
    /// The button was pressed.
    Button,
    /// Nothing happened for a while.
    Timeout,
}

/// What it leads to.
#[derive(Debug, Clone, Copy, PartialEq, Eq, Structural)]
pub enum IdleAction {
    Stay,
    StartListening,
    OpenConfigure,
    /// Forget the conversation, and say so.
    NewChat,
    /// Count the wait.
    CountIdle,
}

/// What an event on the assistant card leads to. Of the swipes only the one to
/// the left does anything: none may begin a recording.
pub fn on_idle_event(event: IdleEvent) -> (action: IdleAction)
    ensures
        action == (match event {
            IdleEvent::Touch(TouchEvent::Tap { .. }) => IdleAction::StartListening,
            IdleEvent::Touch(TouchEvent::SwipeLeft) => IdleAction::OpenConfigure,
            IdleEvent::Touch(_) => IdleAction::Stay,
            IdleEvent::Button => IdleAction::NewChat,
            IdleEvent::Timeout => IdleAction::CountIdle,
        }),
{
    match event {
        IdleEvent::Touch(TouchEvent::Tap { .. }) => IdleAction::StartListening,
        IdleEvent::Touch(TouchEvent::SwipeLeft) => IdleAction::OpenConfigure,
        IdleEvent::Touch(_) => IdleAction::Stay,
        IdleEvent::Button => IdleAction::NewChat,
        IdleEvent::Timeout => IdleAction::CountIdle,
    }
}

// ---------- Starting up ----------
/// What the boot ring shows after the given number of waits for the network.
pub open spec fn join_progress_after(tick: int) -> int {
    60 + (tick + 1) * 38 / 50
}

/// What the boot ring shows after the given number of waits for the network.
pub fn join_progress(tick: usize) -> (percent: u8)
    requires
        tick < WIFI_JOIN_TICKS,
    ensures
        percent == join_progress_after(tick as int),
{
    (60 + (tick as u32 + 1) * 38 / WIFI_JOIN_TICKS as u32) as u8
}

/// The boot ring only ever fills, and is full only once the device is ready.
pub proof fn join_progress_only_rises(tick: int, later: int)
    requires
        0 <= tick <= later < WIFI_JOIN_TICKS,
    ensures
        60 <= join_progress_after(tick) <= join_progress_after(later) <= 98,
{
}

/// Why the device has to be set up, if it has to: it is not usable as it is
/// configured, or the network cannot be joined.
pub fn setup_reason(usable: bool, joined: bool) -> (reason: Option<&'static str>)
    ensures
        match reason {
            Some(text) => if !usable {
                text@ == "nothing is configured yet - starting the setup hotspot"@
            } else {
                !joined && text@
                    == "could not join the saved network - starting the setup hotspot"@
            },
            None => usable && joined,
        },
{
    if !usable {
        Some("nothing is configured yet - starting the setup hotspot")
    } else if joined {
        None
    } else {
        Some("could not join the saved network - starting the setup hotspot")
    }
}

/// Whether the portal opens at startup: only where what it is told can be kept,
/// or the device would restart into the same state for ever.
pub fn opens_portal(needed: bool, can_keep: bool) -> (r: bool)
    ensures
        r == (needed && can_keep),
{
    needed && can_keep
}

// ---------- Notices ----------
/// Whether a state is the given notice.
pub open spec fn is_notice(
    state: UiState,
    title: Seq<char>,
    body: Seq<char>,
    color: NoticeColor,
) -> bool {
    state matches UiState::Notice { title: t, body: b, color: c } && t@ == title && b@ == body && c
        == color
}

/// A notice.
pub fn notice(title: &str, body: &str, color: NoticeColor) -> (state: UiState)
    ensures
        is_notice(state, title@, body@, color),
{
    UiState::Notice { title: title.to_owned(), body: body.to_owned(), color }
}

/// The notice after a turn that was abandoned.
pub fn cancel_notice() -> (state: UiState)
    ensures
        is_notice(state, "Cancelled"@, "nothing sent"@, NoticeColor::Info),
{
    notice("Cancelled", "nothing sent", NoticeColor::Info)
}

/// The question before erasing.
pub fn erase_notice() -> (state: UiState)
    ensures
        is_notice(
            state,
            "Erase?"@,
            "tap again to erase saved settings and restart into setup"@,
            NoticeColor::Warn,
        ),
{
    notice(
        "Erase?",
        "tap again to erase saved settings and restart into setup",
        NoticeColor::Warn,
    )
}

/// The notice after the setup network failed to start.
pub fn hotspot_failed_notice() -> (state: UiState)
    ensures
        is_notice(
            state,
            "Hotspot Failed"@,
            "could not start the setup network - restarting"@,
            NoticeColor::Warn,
        ),
{
    notice("Hotspot Failed", "could not start the setup network - restarting", NoticeColor::Warn)
}

// ---------- Leaving the portal ----------
/// What to do before the restart that ends the portal.
pub enum PortalExit {
    /// Write the settings, then tell how it went.
    Write(SavePlan),
    /// Nothing to write; tell this.
    Tell(UiState),
}

/// What to do with the outcome of the portal, given where settings are kept and
/// how large a sector of flash is.
pub fn portal_exit(outcome: &PortalOutcome, store: Option<Store>, sector: u32) -> (exit: PortalExit)
    requires
        sector > 0,
        store matches Some(s) ==> s.offset + s.size <= u32::MAX,
    ensures
        match (*outcome, store) {
            (PortalOutcome::Cancelled, _) => exit matches PortalExit::Tell(n) && is_notice(
                n,
                "Cancelled"@,
                "restarting"@,
                NoticeColor::Info,
            ),
            (PortalOutcome::Saved(_), None) => exit matches PortalExit::Tell(n) && is_notice(
                n,
                "Not Saved"@,
                "no storage partition - restarting"@,
                NoticeColor::Warn,
            ),
            (PortalOutcome::Saved(settings), Some(s)) => if fits(s, settings, sector) {
                exit matches PortalExit::Write(plan) && s.saves(settings, sector, plan)
            } else {
                exit matches PortalExit::Tell(n) && is_notice(
                    n,
                    "Save Failed"@,
                    "restarting"@,
                    NoticeColor::Warn,
                )
            },
        },
{
    match outcome {
        PortalOutcome::Saved(settings) => match store {
            Some(store) => match store.save(settings, sector) {
                Ok(plan) => PortalExit::Write(plan),
                Err(_) => PortalExit::Tell(notice("Save Failed", "restarting", NoticeColor::Warn)),
            },
            None => PortalExit::Tell(
                notice("Not Saved", "no storage partition - restarting", NoticeColor::Warn),
            ),
        },
        PortalOutcome::Cancelled => PortalExit::Tell(
            notice("Cancelled", "restarting", NoticeColor::Info),
        ),
    }
}

/// Whether settings can be kept in a store at all.
pub open spec fn fits(store: Store, settings: Settings, sector: u32) -> bool {
    &&& settings.storable()
    &&& settings.record().len() <= crate::settings::MAX_RECORD
    &&& crate::settings::rounded_up(settings.record().len() as int, sector as int) <= store.size
}

/// The notice after the settings were written, or were not.
pub fn written_notice(written: bool) -> (state: UiState)
    ensures
        written ==> is_notice(state, "Saved"@, "restarting"@, NoticeColor::Good),
        !written ==> is_notice(state, "Save Failed"@, "restarting"@, NoticeColor::Warn),
{
    if written {
        notice("Saved", "restarting", NoticeColor::Good)
    } else {
        notice("Save Failed", "restarting", NoticeColor::Warn)
    }
}

/// Every setting is shown as it is, but for two kinds: one that is not set is said
/// to be so, and the password and the two keys are shown as eight asterisks.
pub proof fn settings_are_shown_but_for_secrets(f: Field, value: Seq<char>)
    ensures
        value.len() == 0 ==> shown_value(f, value) == "not set"@,
        value.len() > 0 && (f is WifiPassword || f is AgentApiKey || f is SpeechApiKey)
            ==> shown_value(f, value) == "********"@,
        value.len() > 0 && !(f is WifiPassword || f is AgentApiKey || f is SpeechApiKey)
            ==> shown_value(f, value) == value,
{
}

/// Swipes up and down turn pages of three entries, and undo each other; nothing
/// else turns one.
pub proof fn page_turns_undo_each_other(event: TouchEvent, offset: int, count: int)
    requires
        0 <= offset,
        offset % 3 == 0,
        offset + 3 < count,
    ensures
        turned(TouchEvent::SwipeUp, offset, count) == offset + 3,
        turned(TouchEvent::SwipeDown, offset + 3, count) == offset,
        turned(TouchEvent::SwipeDown, 0, count) == 0,
        !(event is SwipeUp) && !(event is SwipeDown) ==> turned(event, offset, count) == offset,
{
}

/// The last page begins at a multiple of three and holds the last entry: turning
/// on from it changes nothing.
pub proof fn the_last_page_holds_the_last_entry(count: int)
    requires
        count > 0,
    ensures
        last_page_of(count) % 3 == 0,
        last_page_of(count) < count <= last_page_of(count) + 3,
        turned(TouchEvent::SwipeUp, last_page_of(count), count) == last_page_of(count),
        last_page_of(0) == 0,
{
}

/// What a tap on the configure card does is what its row says: the first opens the
/// setup, the second steps the volume by five, down on its left and up on its
/// right and never past 0 or 100, and the third asks before it erases. Swipes
/// lead on to the settings or back; anything else does nothing.
pub proof fn configure_rows_do_what_they_say(event: TouchEvent, volume: u8)
    requires
        volume <= 100,
    ensures
        event is SwipeLeft ==> configure_action(event, volume) is OpenSettings,
        event is SwipeRight ==> configure_action(event, volume) is Back,
        event is SwipeUp || event is SwipeDown ==> configure_action(event, volume) is Stay,
        event matches TouchEvent::Tap { x, y } ==> {
            let action = configure_action(event, volume);
            let aside = x < 44 || x > 196;
            &&& action is OpenPortal <==> !aside && 58 <= y < 98
            &&& action is ConfirmErase <==> !aside && 150 <= y < 190
            &&& action is SetVolume <==> !aside && 104 <= y < 144 && (x < 86 && volume > 0 || x
                > 154 && volume < 100)
            &&& action is Stay || action is OpenPortal || action is ConfirmErase
                || action is SetVolume
            &&& action matches ConfigureAction::SetVolume(v) ==> v == (if x < 86 {
                if volume >= 5 {
                    volume - 5
                } else {
                    0
                }
            } else {
                if volume <= 95 {
                    volume + 5
                } else {
                    100
                }
            })
        },
{
}

/// Leaving the configure card leads where the swipe points, to the first page of
/// the settings or back to the assistant; nothing else leaves it.
pub proof fn cards_are_left_by_swipes(cards: Cards, action: ConfigureAction, saves: bool)
    ensures
        ({
            let next = after_action(cards, action, saves);
            &&& action is OpenSettings ==> next.screen is Settings && next.offset == 0
            &&& action is Back ==> next.screen is Assistant && next.offset == cards.offset
            &&& !(action is OpenSettings || action is Back) ==> next.screen == cards.screen
                && next.offset == cards.offset && next.from_flash == cards.from_flash
            &&& action is SetVolume ==> next.dirty
            &&& !cards.dirty && !(action is SetVolume) ==> !next.dirty && next.from_flash
                == cards.from_flash
        }),
{
}

/// The boot ring goes from 60 percent to 98 in fifty equal steps while the network
/// is waited for.
pub proof fn join_progress_is_even(tick: int)
    requires
        0 <= tick < 50,
    ensures
        ({
            let done = join_progress_after(tick) - 60;
            done * 50 <= 38 * (tick + 1) < (done + 1) * 50
        }),
        join_progress_after(49) == 98,
{
}

} // verus!
