//! The small windows that tell the user something or ask them.
//!
//! A window is described here as plain values, and so is what becomes of the
//! user's answer.

use vstd::prelude::*;

use crate::gui::base64::{encoded, icon_data_uri, letter};
use crate::text::{
    chars_of, contains, law_nothing_else_is_replaced, law_replacing_goes_from_the_left, matches_at,
    replace_text, replaced, same_text,
};

verus! {

// ---------------------------------------------------------------------------
// The switch for events
// ---------------------------------------------------------------------------

/// Whether events such as the start of a share are shown. Questions to the
/// user are shown in any case.
#[derive(Debug, Clone, Copy, PartialEq, Eq, Structural)]
pub struct EventSwitch {
    pub on: bool,
}

impl EventSwitch {
    /// At the start events are shown.
    pub open spec fn initial() -> Self {
        EventSwitch { on: true }
    }

    /// A switch as it is at the start.
    pub fn new() -> (r: Self)
        ensures
            r == EventSwitch::initial(),
            r.on,
    {
        EventSwitch { on: true }
    }

    /// The switch once it was set.
    pub open spec fn set(self, on: bool) -> Self {
        EventSwitch { on }
    }
}

/// Switches the showing of events on or off.
pub fn set_events_enabled(switch: &mut EventSwitch, on: bool)
    ensures
        *final(switch) == old(switch).set(on),
        final(switch).on == on,
{
    switch.on = on;
}

/// Are events shown?
pub fn events_enabled(switch: &EventSwitch) -> (r: bool)
    ensures
        r == switch.on,
{
    switch.on
}

/// The switch after it was set a number of times.
pub open spec fn switch_after(sets: Seq<bool>) -> EventSwitch
    decreases sets.len(),
{
    if sets.len() == 0 {
        EventSwitch::initial()
    } else {
        switch_after(sets.drop_last()).set(sets.last())
    }
}

/// Events are shown as the switch was set last, and are shown where it never was
/// set.
pub proof fn law_last_setting_counts(sets: Seq<bool>)
    ensures
        switch_after(sets).on == if sets.len() == 0 {
            true
        } else {
            sets.last()
        },
{
}

// ---------------------------------------------------------------------------
// A window
// ---------------------------------------------------------------------------

/// A button of a window.
#[derive(Debug)]
pub struct PopupButton {
    pub label: String,
    /// What the window sends when the button is clicked.
    pub action: String,
}

/// A window.
#[derive(Debug)]
pub struct PopupConfig {
    pub head: String,
    pub title: String,
    pub body: String,
    pub primary: Option<PopupButton>,
    pub secondary: Option<PopupButton>,
    /// A click beside the buttons only closes the window.
    pub body_click_dismisses: bool,
    pub timeout_ms: u64,
    /// In pixels of the desktop's own scale.
    pub height: u32,
}

/// What a button says and sends.
pub struct Button {
    pub label: Seq<char>,
    pub action: Seq<char>,
}

/// What a window says and does.
pub struct Popup {
    pub head: Seq<char>,
    pub title: Seq<char>,
    pub body: Seq<char>,
    pub primary: Option<Button>,
    pub secondary: Option<Button>,
    pub body_click_dismisses: bool,
    pub timeout_ms: u64,
    pub height: u32,
}

impl View for PopupButton {
    type V = Button;

    open spec fn view(&self) -> Button {
        Button { label: self.label@, action: self.action@ }
    }
}

/// The button of a window, if it has one.
pub open spec fn button(b: Option<PopupButton>) -> Option<Button> {
    match b {
        Some(b) => Some(b@),
        None => None,
    }
}

impl View for PopupConfig {
    type V = Popup;

    open spec fn view(&self) -> Popup {
        Popup {
            head: self.head@,
            title: self.title@,
            body: self.body@,
            primary: button(self.primary),
            secondary: button(self.secondary),
            body_click_dismisses: self.body_click_dismisses,
            timeout_ms: self.timeout_ms,
            height: self.height,
        }
    }
}

/// The width of a window.
pub const POPUP_WIDTH: u32 = 360;

/// The height of a window that tells something.
pub const POPUP_HEIGHT_INFO: u32 = 130;

/// The height of a window with buttons.
pub const POPUP_HEIGHT_PROMPT: u32 = 180;

/// What is left free at the right edge of the screen.
pub const MARGIN_RIGHT: u32 = 16;

/// What is left free at the lower edge of the screen.
pub const TASKBAR_RESERVE: u32 = 60;

impl PopupConfig {
    /// After how many milliseconds the window closes by itself, if it does.
    pub fn closes_after(&self) -> (r: Option<u64>)
        ensures
            r == if self.timeout_ms > 0 {
                Some(self.timeout_ms)
            } else {
                None
            },
    {
        if self.timeout_ms > 0 {
            Some(self.timeout_ms)
        } else {
            None
        }
    }
}

/// A window that tells something and closes by itself after a while.
pub open spec fn info_popup(
    head: Seq<char>,
    title: Seq<char>,
    body: Seq<char>,
    timeout_ms: u64,
) -> Popup {
    Popup {
        head,
        title,
        body,
        primary: None,
        secondary: None,
        body_click_dismisses: true,
        timeout_ms,
        height: POPUP_HEIGHT_INFO,
    }
}

/// A window that tells something. It is shown in any case.
pub fn show_info(title: &str, body: &str) -> (r: PopupConfig)
    ensures
        r@ == info_popup("MEETING AGENT"@, title@, body@, 5000),
{
    PopupConfig {
        head: "MEETING AGENT".to_owned(),
        title: title.to_owned(),
        body: body.to_owned(),
        primary: None,
        secondary: None,
        body_click_dismisses: true,
        timeout_ms: 5000,
        height: POPUP_HEIGHT_INFO,
    }
}

/// The same window, for one who waits until it is closed.
pub fn show_info_blocking(title: &str, body: &str) -> (r: PopupConfig)
    ensures
        r@ == info_popup("MEETING AGENT"@, title@, body@, 5000),
{
    show_info(title, body)
}

/// A window that tells of an event, if events are shown.
pub fn show_event(switch: &EventSwitch, title: &str, body: &str) -> (r: Option<PopupConfig>)
    ensures
        match r {
            Some(p) => switch.on && p@ == info_popup("이벤트"@, title@, body@, 4500),
            None => !switch.on,
        },
{
    if !events_enabled(switch) {
        return None;
    }
    Some(
        PopupConfig {
            head: "이벤트".to_owned(),
            title: title.to_owned(),
            body: body.to_owned(),
            primary: None,
            secondary: None,
            body_click_dismisses: true,
            timeout_ms: 4500,
            height: POPUP_HEIGHT_INFO,
        },
    )
}

/// How the detected meeting is called in the question about it.
pub open spec fn detected_text(title_hint: Option<Seq<char>>) -> Seq<char> {
    match title_hint {
        Some(t) => if t.len() > 0 {
            "Teams 미팅이 감지되었습니다: "@ + t
        } else {
            "Teams 미팅이 감지되었습니다."@
        },
        None => "Teams 미팅이 감지되었습니다."@,
    }
}

/// The question whether a meeting is to be recorded. The window closes itself
/// a little after the time for an answer has run out, so that no answer is
/// told apart from a refusal.
pub open spec fn prompt_popup(title_hint: Option<Seq<char>>) -> Popup {
    Popup {
        head: "미팅 감지됨"@,
        title: "녹화하시겠습니까?"@,
        body: detected_text(title_hint),
        primary: Some(Button { label: "녹화"@, action: "record"@ }),
        secondary: Some(Button { label: "무시"@, action: "ignore"@ }),
        body_click_dismisses: false,
        timeout_ms: 31_000,
        height: POPUP_HEIGHT_PROMPT,
    }
}

/// The question whether a meeting is to be recorded.
pub fn show_meeting_prompt(title_hint: &Option<String>) -> (r: PopupConfig)
    ensures
        r@ == prompt_popup(crate::text::option_text(*title_hint)),
{
    let body = match title_hint {
        Some(t) => if !t.as_str().is_empty() {
            let mut body = "Teams 미팅이 감지되었습니다: ".to_owned();
            body.append(t.as_str());
            body
        } else {
            "Teams 미팅이 감지되었습니다.".to_owned()
        },
        None => "Teams 미팅이 감지되었습니다.".to_owned(),
    };
    PopupConfig {
        head: "미팅 감지됨".to_owned(),
        title: "녹화하시겠습니까?".to_owned(),
        body,
        primary: Some(PopupButton { label: "녹화".to_owned(), action: "record".to_owned() }),
        secondary: Some(PopupButton { label: "무시".to_owned(), action: "ignore".to_owned() }),
        body_click_dismisses: false,
        timeout_ms: 31_000,
        height: POPUP_HEIGHT_PROMPT,
    }
}

/// The window that is shown when a meeting seems to be over.
pub open spec fn ended_popup() -> Popup {
    Popup {
        head: "미팅 종료 감지"@,
        title: "미팅이 종료된 것 같습니다."@,
        body: "10초 안에 응답하지 않으면 자동으로 마무리합니다."@,
        primary: Some(Button { label: "녹화 중지 + 폴더 열기"@, action: "stop_open"@ }),
        secondary: None,
        body_click_dismisses: false,
        timeout_ms: 10_000,
        height: POPUP_HEIGHT_PROMPT,
    }
}

/// The window that is shown when a meeting seems to be over. The recording
/// goes on until it is answered or closes.
pub fn show_meeting_ended() -> (r: PopupConfig)
    ensures
        r@ == ended_popup(),
{
    PopupConfig {
        head: "미팅 종료 감지".to_owned(),
        title: "미팅이 종료된 것 같습니다.".to_owned(),
        body: "10초 안에 응답하지 않으면 자동으로 마무리합니다.".to_owned(),
        primary: Some(
            PopupButton {
                label: "녹화 중지 + 폴더 열기".to_owned(),
                action: "stop_open".to_owned(),
            },
        ),
        secondary: None,
        body_click_dismisses: false,
        timeout_ms: 10_000,
        height: POPUP_HEIGHT_PROMPT,
    }
}

/// The window that is shown when a session has been saved.
pub open spec fn saved_popup(session_dir: Seq<char>) -> Popup {
    Popup {
        head: "녹화 완료"@,
        title: "세션이 저장되었습니다."@,
        body: "클릭해서 폴더 열기:\n"@ + session_dir,
        primary: Some(Button { label: "폴더 열기"@, action: "open"@ }),
        secondary: None,
        body_click_dismisses: false,
        timeout_ms: 8000,
        height: POPUP_HEIGHT_PROMPT,
    }
}

/// The window that is shown when a session has been saved.
pub fn show_post_finalize(session_dir: &str) -> (r: PopupConfig)
    ensures
        r@ == saved_popup(session_dir@),
{
    let mut body = "클릭해서 폴더 열기:\n".to_owned();
    body.append(session_dir);
    PopupConfig {
        head: "녹화 완료".to_owned(),
        title: "세션이 저장되었습니다.".to_owned(),
        body,
        primary: Some(PopupButton { label: "폴더 열기".to_owned(), action: "open".to_owned() }),
        secondary: None,
        body_click_dismisses: false,
        timeout_ms: 8000,
        height: POPUP_HEIGHT_PROMPT,
    }
}

// ---------------------------------------------------------------------------
// Answers
// ---------------------------------------------------------------------------

/// What happens to a window.
#[derive(Debug)]
pub enum PopupEvent {
    /// The page sent a message.
    Ipc(String),
    /// The time ran out.
    Timeout,
    /// The window was closed.
    CloseRequested,
}

/// How a window ended.
#[derive(Debug)]
pub enum PopupResult {
    Action(String),
    BodyClick,
    Timeout,
    Closed,
}

/// How a window ended, and what it sent.
pub enum Answer {
    Action(Seq<char>),
    BodyClick,
    Timeout,
    Closed,
}

impl View for PopupResult {
    type V = Answer;

    open spec fn view(&self) -> Answer {
        match self {
            PopupResult::Action(a) => Answer::Action(a@),
            PopupResult::BodyClick => Answer::BodyClick,
            PopupResult::Timeout => Answer::Timeout,
            PopupResult::Closed => Answer::Closed,
        }
    }
}

/// How a window ends when this happens to it.
pub fn popup_result(event: PopupEvent) -> (r: PopupResult)
    ensures
        r@ == match event {
            PopupEvent::Ipc(arg) => if arg@ == "_body"@ {
                Answer::BodyClick
            } else {
                Answer::Action(arg@)
            },
            PopupEvent::Timeout => Answer::Timeout,
            PopupEvent::CloseRequested => Answer::Closed,
        },
{
    match event {
        PopupEvent::Ipc(arg) => if same_text(arg.as_str(), "_body") {
            PopupResult::BodyClick
        } else {
            PopupResult::Action(arg)
        },
        PopupEvent::Timeout => PopupResult::Timeout,
        PopupEvent::CloseRequested => PopupResult::Closed,
    }
}

/// The user's answer about a detected meeting.
#[derive(Debug, Clone, Copy, PartialEq, Eq, Structural)]
pub enum ToastAction {
    Record,
    Ignore,
}

/// The user's answer about a meeting that is over.
#[derive(Debug, Clone, Copy, PartialEq, Eq, Structural)]
pub enum MeetingEndedAction {
    OpenFolder,
    AutoFinalize,
}

/// The answer to the question whether a meeting is to be recorded. A window
/// that was closed or timed out gives none.
pub open spec fn prompt_answer(a: Answer) -> Option<ToastAction> {
    match a {
        Answer::Action(s) => if s == "record"@ {
            Some(ToastAction::Record)
        } else if s == "ignore"@ {
            Some(ToastAction::Ignore)
        } else {
            None
        },
        _ => None,
    }
}

/// The answer to the question whether a meeting is to be recorded.
pub fn prompt_reply(result: &PopupResult) -> (r: Option<ToastAction>)
    ensures
        r == prompt_answer(result@),
{
    match result {
        PopupResult::Action(a) => if same_text(a.as_str(), "record") {
            Some(ToastAction::Record)
        } else if same_text(a.as_str(), "ignore") {
            Some(ToastAction::Ignore)
        } else {
            None
        },
        _ => None,
    }
}

/// The answer to the window that is shown when a meeting seems to be over: the
/// button and the rest of the window open the folder; a window that was closed
/// or timed out does not.
pub open spec fn ended_answer(a: Answer) -> MeetingEndedAction {
    match a {
        Answer::Action(s) => if s == "_close"@ {
            MeetingEndedAction::AutoFinalize
        } else {
            MeetingEndedAction::OpenFolder
        },
        Answer::BodyClick => MeetingEndedAction::OpenFolder,
        _ => MeetingEndedAction::AutoFinalize,
    }
}

/// The answer to the window that is shown when a meeting seems to be over.
pub fn ended_reply(result: &PopupResult) -> (r: MeetingEndedAction)
    ensures
        r == ended_answer(result@),
{
    match result {
        PopupResult::Action(a) => if same_text(a.as_str(), "_close") {
            MeetingEndedAction::AutoFinalize
        } else {
            MeetingEndedAction::OpenFolder
        },
        PopupResult::BodyClick => MeetingEndedAction::OpenFolder,
        _ => MeetingEndedAction::AutoFinalize,
    }
}

/// Does the answer to the window that is shown after a session open its folder?
pub fn opens_session_folder(result: &PopupResult) -> (r: bool)
    ensures
        r == (result@ is Action || result@ is BodyClick),
{
    match result {
        PopupResult::Action(_) => true,
        PopupResult::BodyClick => true,
        _ => false,
    }
}

// ---------------------------------------------------------------------------
// The page of a window
// ---------------------------------------------------------------------------

/// A character as it stands in a page.
pub open spec fn entity(c: char) -> Seq<char> {
    if c == '&' {
        "&amp;"@
    } else if c == '<' {
        "&lt;"@
    } else if c == '>' {
        "&gt;"@
    } else if c == '"' {
        "&quot;"@
    } else if c == '\'' {
        "&#39;"@
    } else {
        seq![c]
    }
}

/// A text as it stands in a page.
pub open spec fn escaped(s: Seq<char>) -> Seq<char>
    decreases s.len(),
{
    if s.len() == 0 {
        Seq::empty()
    } else {
        escaped(s.drop_last()) + entity(s.last())
    }
}

/// A character that a page takes for markup.
pub open spec fn is_markup(c: char) -> bool {
    c == '<' || c == '>' || c == '"' || c == '\''
}

/// No text that is put into a page can be taken for markup.
pub proof fn law_escaped_text_is_no_markup(s: Seq<char>)
    ensures
        forall|i: int| 0 <= i < escaped(s).len() ==> !is_markup(#[trigger] escaped(s)[i]),
    decreases s.len(),
{
    if s.len() > 0 {
        law_escaped_text_is_no_markup(s.drop_last());
        reveal_strlit("&amp;");
        reveal_strlit("&lt;");
        reveal_strlit("&gt;");
        reveal_strlit("&quot;");
        reveal_strlit("&#39;");
        let head = escaped(s.drop_last());
        let tail = entity(s.last());
        assert(forall|i: int| 0 <= i < tail.len() ==> !is_markup(#[trigger] tail[i]));
        assert forall|i: int| 0 <= i < escaped(s).len() implies !is_markup(
            #[trigger] escaped(s)[i],
        ) by {
            if i < head.len() {
                assert(escaped(s)[i] == head[i]);
            } else {
                assert(escaped(s)[i] == tail[i - head.len()]);
            }
        }
    }
}

/// A text as it stands in a page.
pub fn html_escape(s: &str) -> (r: String)
    ensures
        r@ == escaped(s@),
{
    let chars = chars_of(s);
    let mut out = String::new();
    let mut i: usize = 0;
    assert(chars@.take(0) =~= Seq::empty());
    assert(out@ =~= escaped(chars@.take(0)));
    while i < chars.len()
        invariant
            i <= chars@.len(),
            out@ == escaped(chars@.take(i as int)),
        decreases chars@.len() - i,
    {
        assert(chars@.take(i + 1).drop_last() =~= chars@.take(i as int));
        let ghost before = out@;
        let c = chars[i];
        if c == '&' {
            out.append("&amp;");
        } else if c == '<' {
            out.append("&lt;");
        } else if c == '>' {
            out.append("&gt;");
        } else if c == '"' {
            out.append("&quot;");
        } else if c == '\'' {
            out.append("&#39;");
        } else {
            out.push(c);
        }
        assert(out@ =~= before + entity(c));
        i += 1;
    }
    assert(chars@.take(i as int) =~= chars@);
    out
}

/// The part of the page that shows a button.
pub open spec fn button_html(class: Seq<char>, b: Button) -> Seq<char> {
    "<button class=\""@ + class + "\" onclick=\"action('"@ + escaped(b.action) + "', event)\">"@
        + escaped(b.label) + "</button>"@
}

/// The part of the page that shows the buttons: the second one stands first.
pub open spec fn buttons_html(p: Popup) -> Seq<char> {
    (match p.secondary {
        Some(b) => button_html("secondary"@, b),
        None => Seq::empty(),
    }) + (match p.primary {
        Some(b) => button_html("primary"@, b),
        None => Seq::empty(),
    })
}

/// What a click beside the buttons sends: nothing of its own, or the same as
/// the first button.
pub open spec fn body_action(p: Popup) -> Seq<char> {
    if p.body_click_dismisses {
        "_body"@
    } else {
        match p.primary {
            Some(b) => b.action,
            None => "_body"@,
        }
    }
}

/// The page of a window: the template with its places filled in.
pub open spec fn page(template: Seq<char>, icon: Seq<u8>, p: Popup) -> Seq<char> {
    let with_icon = replaced(
        template,
        "{{ICON_DATA_URI}}"@,
        "data:image/png;base64,"@ + encoded(icon),
    );
    let with_head = replaced(with_icon, "{{HEAD}}"@, escaped(p.head));
    let with_title = replaced(with_head, "{{TITLE}}"@, escaped(p.title));
    let with_body = replaced(
        with_title,
        "{{BODY}}"@,
        replaced(escaped(p.body), "\n"@, "<br>"@),
    );
    let with_buttons = replaced(with_body, "{{ACTIONS}}"@, buttons_html(p));
    replaced(with_buttons, "{{BODY_ACTION}}"@, escaped(body_action(p)))
}

fn push_button(out: &mut String, class: &str, b: &PopupButton)
    ensures
        final(out)@ == old(out)@ + button_html(class@, b@),
{
    let ghost before = out@;
    let action = html_escape(b.action.as_str());
    let label = html_escape(b.label.as_str());
    out.append("<button class=\"");
    out.append(class);
    out.append("\" onclick=\"action('");
    out.append(action.as_str());
    out.append("', event)\">");
    out.append(label.as_str());
    out.append("</button>");
    assert(out@ =~= before + button_html(class@, b@));
}

/// The page of a window.
pub fn render_html(template: &str, icon_png: &[u8], cfg: &PopupConfig) -> (r: String)
    ensures
        r@ == page(template@, icon_png@, cfg@),
{
    proof {
        reveal_strlit("{{ICON_DATA_URI}}");
        reveal_strlit("{{HEAD}}");
        reveal_strlit("{{TITLE}}");
        reveal_strlit("{{BODY}}");
        reveal_strlit("{{ACTIONS}}");
        reveal_strlit("{{BODY_ACTION}}");
        reveal_strlit("\n");
    }
    let icon = icon_data_uri(icon_png);
    let mut buttons = String::new();
    if let Some(b) = &cfg.secondary {
        push_button(&mut buttons, "secondary", b);
    }
    if let Some(b) = &cfg.primary {
        push_button(&mut buttons, "primary", b);
    }
    assert(buttons@ =~= buttons_html(cfg@));
    let action = if cfg.body_click_dismisses {
        "_body".to_owned()
    } else {
        match &cfg.primary {
            Some(b) => b.action.clone(),
            None => "_body".to_owned(),
        }
    };
    let head = html_escape(cfg.head.as_str());
    let title = html_escape(cfg.title.as_str());
    let flat_body = html_escape(cfg.body.as_str());
    let body = replace_text(flat_body.as_str(), "\n", "<br>");
    let body_click = html_escape(action.as_str());
    let p1 = replace_text(template, "{{ICON_DATA_URI}}", icon.as_str());
    let p2 = replace_text(p1.as_str(), "{{HEAD}}", head.as_str());
    let p3 = replace_text(p2.as_str(), "{{TITLE}}", title.as_str());
    let p4 = replace_text(p3.as_str(), "{{BODY}}", body.as_str());
    let p5 = replace_text(p4.as_str(), "{{ACTIONS}}", buttons.as_str());
    replace_text(p5.as_str(), "{{BODY_ACTION}}", body_click.as_str())
}

// ---------------------------------------------------------------------------
// What holds of every window
// ---------------------------------------------------------------------------

/// The buttons of a window mean what they say. Of the question about a meeting the
/// first button records it and the second ignores it, a click beside them records
/// it, and no answer is given where the window is closed or the time runs out,
/// which it does only after the thirty seconds for an answer. Of the window about
/// the end of a meeting the button, and a click beside it, open the folder, and
/// nothing else does.
pub proof fn law_buttons_mean_what_they_say(title_hint: Option<Seq<char>>)
    ensures
        prompt_popup(title_hint).primary is Some,
        prompt_popup(title_hint).secondary is Some,
        prompt_answer(Answer::Action(prompt_popup(title_hint).primary->0.action)) == Some(
            ToastAction::Record,
        ),
        prompt_answer(Answer::Action(prompt_popup(title_hint).secondary->0.action)) == Some(
            ToastAction::Ignore,
        ),
        prompt_answer(Answer::Action(body_action(prompt_popup(title_hint)))) == Some(
            ToastAction::Record,
        ),
        prompt_answer(Answer::Timeout) is None,
        prompt_answer(Answer::Closed) is None,
        prompt_answer(Answer::BodyClick) is None,
        prompt_popup(title_hint).timeout_ms > 30_000,
        ended_popup().primary is Some,
        ended_answer(Answer::Action(ended_popup().primary->0.action))
            == MeetingEndedAction::OpenFolder,
        ended_answer(Answer::Action(body_action(ended_popup()))) == MeetingEndedAction::OpenFolder,
        ended_answer(Answer::BodyClick) == MeetingEndedAction::OpenFolder,
        ended_answer(Answer::Action("_close"@)) == MeetingEndedAction::AutoFinalize,
        ended_answer(Answer::Timeout) == MeetingEndedAction::AutoFinalize,
        ended_answer(Answer::Closed) == MeetingEndedAction::AutoFinalize,
        ended_popup().timeout_ms == 10_000,
{
    reveal_strlit("record");
    reveal_strlit("ignore");
    reveal_strlit("_close");
    reveal_strlit("stop_open");
    assert("record"@[0] == 'r' && "ignore"@[0] == 'i');
    assert("_close"@[0] == '_' && "stop_open"@[0] == 's');
}

/// Nothing else than these two words is an answer to the question about a meeting.
pub proof fn law_only_two_words_answer(s: Seq<char>)
    ensures
        prompt_answer(Answer::Action(s)) == Some(ToastAction::Record) <==> s == "record"@,
        prompt_answer(Answer::Action(s)) == Some(ToastAction::Ignore) <==> s == "ignore"@,
        ended_answer(Answer::Action(s)) == MeetingEndedAction::OpenFolder <==> s != "_close"@,
{
    reveal_strlit("record");
    reveal_strlit("ignore");
    assert("record"@[0] == 'r' && "ignore"@[0] == 'i');
}

/// A window that tells something has no buttons, says what it is given, and closes
/// after the time given; one that asks about a meeting names it, and one about a
/// saved session names its folder.
pub proof fn law_windows_say_what_they_are_given(
    head: Seq<char>,
    title: Seq<char>,
    body: Seq<char>,
    timeout_ms: u64,
)
    ensures
        ({
            let p = info_popup(head, title, body, timeout_ms);
            &&& p.head == head
            &&& p.title == title
            &&& p.body == body
            &&& p.primary is None
            &&& p.secondary is None
            &&& p.body_click_dismisses
            &&& p.timeout_ms == timeout_ms
            &&& p.height == 130
            &&& body_action(p) == "_body"@
        }),
        title.len() > 0 ==> prompt_popup(Some(title)).body == "Teams 미팅이 감지되었습니다: "@ + title,
        prompt_popup(None).body == "Teams 미팅이 감지되었습니다."@,
        saved_popup(body).body == "클릭해서 폴더 열기:\n"@ + body,
        saved_popup(body).primary is Some,
        !saved_popup(body).body_click_dismisses,
        prompt_popup(None).height == 180,
{
}

/// Text is escaped character by character: the five characters that a page reads
/// in its own way become entities, and all others stay.
pub proof fn law_each_character_is_escaped(a: Seq<char>, b: Seq<char>, c: char)
    ensures
        escaped(a + b) == escaped(a) + escaped(b),
        escaped(Seq::empty()) == Seq::<char>::empty(),
        escaped(seq![c]) == if c == '&' {
            "&amp;"@
        } else if c == '<' {
            "&lt;"@
        } else if c == '>' {
            "&gt;"@
        } else if c == '"' {
            "&quot;"@
        } else if c == '\'' {
            "&#39;"@
        } else {
            seq![c]
        },
{
    lemma_escaped_concat(a, b);
    assert(seq![c].drop_last() =~= Seq::empty());
    reveal_with_fuel(escaped, 2);
    assert(Seq::<char>::empty() + entity(c) =~= entity(c));
}

proof fn lemma_escaped_concat(a: Seq<char>, b: Seq<char>)
    ensures
        escaped(a + b) == escaped(a) + escaped(b),
    decreases b.len(),
{
    if b.len() == 0 {
        assert(a + b =~= a);
        assert(escaped(a) + escaped(b) =~= escaped(a));
    } else {
        lemma_escaped_concat(a, b.drop_last());
        assert((a + b).drop_last() =~= a + b.drop_last());
        assert(escaped(a + b) =~= escaped(a) + escaped(b));
    }
}

/// A text without a brace.
pub open spec fn no_brace(s: Seq<char>) -> bool {
    forall|i: int| 0 <= i < s.len() ==> #[trigger] s[i] != '{'
}

/// A place of a template: two braces, and none after them that opens.
spec fn is_place(s: Seq<char>) -> bool {
    &&& s.len() > 2
    &&& s[0] == '{'
    &&& s[1] == '{'
    &&& forall|i: int| 2 <= i < s.len() ==> #[trigger] s[i] != '{'
}

proof fn lemma_no_place(s: Seq<char>, place: Seq<char>)
    requires
        no_brace(s),
        is_place(place),
    ensures
        !contains(s, place),
{
    if contains(s, place) {
        let i = choose|i: int| matches_at(s, place, i);
        assert(s.subrange(i, i + place.len())[0] == place[0]);
        assert(s[i] == '{');
    }
}

proof fn lemma_other_place(
    before: Seq<char>,
    place: Seq<char>,
    behind: Seq<char>,
    other: Seq<char>,
    k: int,
)
    requires
        no_brace(before),
        no_brace(behind),
        is_place(place),
        is_place(other),
        2 <= k < place.len(),
        k < other.len(),
        place[k] != other[k],
    ensures
        !contains(before + place + behind, other),
{
    let s = before + place + behind;
    if contains(s, other) {
        let i = choose|i: int| matches_at(s, other, i);
        let sub = s.subrange(i, i + other.len());
        assert(sub[0] == s[i] && sub[1] == s[i + 1] && sub[k] == s[i + k]);
        let at = before.len() as int;
        if i < at {
            assert(s[i] == before[i]);
        } else if i == at {
            assert(s[i + k] == place[k]);
        } else if i == at + 1 {
            assert(s[i + 1] == place[2]);
        } else if i < at + place.len() {
            assert(s[i] == place[i - at]);
        } else {
            assert(s[i] == behind[i - at - place.len()]);
        }
    }
}

proof fn lemma_fill_place(
    before: Seq<char>,
    place: Seq<char>,
    behind: Seq<char>,
    with: Seq<char>,
)
    requires
        no_brace(before),
        no_brace(behind),
        is_place(place),
    ensures
        replaced(before + place + behind, place, with) == before + with + behind,
{
    let s = before + place + behind;
    assert forall|j: int| 0 <= j < before.len() implies #[trigger] s.skip(j).take(
        place.len() as int,
    ) != place by {
        assert(s.skip(j).take(place.len() as int)[0] == before[j]);
    }
    law_replacing_goes_from_the_left(before, place, behind, with);
    lemma_no_place(behind, place);
    law_nothing_else_is_replaced(behind, place, with);
}

proof fn lemma_no_brace_concat(a: Seq<char>, b: Seq<char>)
    requires
        no_brace(a),
        no_brace(b),
    ensures
        no_brace(a + b),
{
    assert forall|i: int| 0 <= i < (a + b).len() implies #[trigger] (a + b)[i] != '{' by {
        if i < a.len() {
            assert((a + b)[i] == a[i]);
        } else {
            assert((a + b)[i] == b[i - a.len()]);
        }
    }
}

proof fn lemma_escaped_no_brace(s: Seq<char>)
    requires
        no_brace(s),
    ensures
        no_brace(escaped(s)),
    decreases s.len(),
{
    if s.len() > 0 {
        let t = s.drop_last();
        assert forall|i: int| 0 <= i < t.len() implies #[trigger] t[i] != '{' by {
            assert(t[i] == s[i]);
        }
        lemma_escaped_no_brace(t);
        assert(s[s.len() - 1] != '{');
        reveal_strlit("&amp;");
        reveal_strlit("&lt;");
        reveal_strlit("&gt;");
        reveal_strlit("&quot;");
        reveal_strlit("&#39;");
        assert(no_brace(entity(s.last())));
        lemma_no_brace_concat(escaped(t), entity(s.last()));
    }
}

proof fn lemma_encoded_no_brace(s: Seq<u8>)
    ensures
        no_brace(encoded(s)),
    decreases s.len(),
{
    if s.len() >= 3 {
        lemma_encoded_no_brace(s.skip(3));
        let head = seq![
            letter((s[0] / 4) as int),
            letter(s[0] % 4 * 16 + s[1] / 16),
            letter(s[1] % 16 * 4 + s[2] / 64),
            letter((s[2] % 64) as int),
        ];
        assert(no_brace(head));
        lemma_no_brace_concat(head, encoded(s.skip(3)));
    }
}

proof fn lemma_replaced_no_brace(s: Seq<char>, pat: Seq<char>, with: Seq<char>)
    requires
        no_brace(s),
        no_brace(with),
    ensures
        no_brace(replaced(s, pat, with)),
    decreases s.len(),
{
    if s.len() > 0 && pat.len() > 0 {
        if pat.is_prefix_of(s) {
            let r = s.skip(pat.len() as int);
            assert forall|i: int| 0 <= i < r.len() implies #[trigger] r[i] != '{' by {
                assert(r[i] == s[i + pat.len()]);
            }
            lemma_replaced_no_brace(r, pat, with);
            lemma_no_brace_concat(with, replaced(r, pat, with));
        } else {
            let r = s.drop_first();
            assert forall|i: int| 0 <= i < r.len() implies #[trigger] r[i] != '{' by {
                assert(r[i] == s[i + 1]);
            }
            lemma_replaced_no_brace(r, pat, with);
            assert(no_brace(seq![s.first()])) by {
                assert(s[0] != '{');
            }
            lemma_no_brace_concat(seq![s.first()], replaced(r, pat, with));
        }
    }
}

proof fn lemma_button_no_brace(class: Seq<char>, b: Button)
    requires
        no_brace(class),
        no_brace(b.label),
        no_brace(b.action),
    ensures
        no_brace(button_html(class, b)),
{
    reveal_strlit("<button class=\"");
    reveal_strlit("\" onclick=\"action('");
    reveal_strlit("', event)\">");
    reveal_strlit("</button>");
    lemma_escaped_no_brace(b.label);
    lemma_escaped_no_brace(b.action);
    let a = "<button class=\""@ + class;
    lemma_no_brace_concat("<button class=\""@, class);
    let c = a + "\" onclick=\"action('"@;
    lemma_no_brace_concat(a, "\" onclick=\"action('"@);
    lemma_no_brace_concat(c, escaped(b.action));
    let d = c + escaped(b.action) + "', event)\">"@;
    lemma_no_brace_concat(c + escaped(b.action), "', event)\">"@);
    lemma_no_brace_concat(d, escaped(b.label));
    lemma_no_brace_concat(d + escaped(b.label), "</button>"@);
}

/// The texts of a window have no brace that opens.
pub open spec fn plain_window(p: Popup) -> bool {
    &&& no_brace(p.head)
    &&& no_brace(p.title)
    &&& no_brace(p.body)
    &&& p.primary is Some ==> no_brace(p.primary->0.label) && no_brace(p.primary->0.action)
    &&& p.secondary is Some ==> no_brace(p.secondary->0.label) && no_brace(p.secondary->0.action)
}

proof fn lemma_parts_no_brace(icon: Seq<u8>, p: Popup)
    requires
        plain_window(p),
    ensures
        no_brace("data:image/png;base64,"@ + encoded(icon)),
        no_brace(escaped(p.head)),
        no_brace(escaped(p.title)),
        no_brace(replaced(escaped(p.body), "\n"@, "<br>"@)),
        no_brace(buttons_html(p)),
{
    reveal_strlit("data:image/png;base64,");
    reveal_strlit("<br>");
    reveal_strlit("primary");
    reveal_strlit("secondary");
    lemma_encoded_no_brace(icon);
    lemma_no_brace_concat("data:image/png;base64,"@, encoded(icon));
    lemma_escaped_no_brace(p.head);
    lemma_escaped_no_brace(p.title);
    lemma_escaped_no_brace(p.body);
    lemma_replaced_no_brace(escaped(p.body), "\n"@, "<br>"@);
    let none = Seq::<char>::empty();
    let second = match p.secondary {
        Some(b) => button_html("secondary"@, b),
        None => none,
    };
    let first = match p.primary {
        Some(b) => button_html("primary"@, b),
        None => none,
    };
    if p.secondary is Some {
        lemma_button_no_brace("secondary"@, p.secondary->0);
    }
    if p.primary is Some {
        lemma_button_no_brace("primary"@, p.primary->0);
    }
    lemma_no_brace_concat(second, first);
}

spec fn places() -> Seq<Seq<char>> {
    seq![
        "{{ICON_DATA_URI}}"@,
        "{{HEAD}}"@,
        "{{TITLE}}"@,
        "{{BODY}}"@,
        "{{ACTIONS}}"@,
        "{{BODY_ACTION}}"@,
    ]
}

proof fn lemma_places()
    ensures
        forall|i: int| 0 <= i < 6 ==> is_place(#[trigger] places()[i]),
        forall|i: int, j: int|
            0 <= i < 6 && 0 <= j < 6 && i != j ==> exists|k: int|
                2 <= k < (#[trigger] places()[i]).len() && k < (#[trigger] places()[j]).len()
                    && #[trigger] places()[i][k] != places()[j][k],
{
    reveal_strlit("{{ICON_DATA_URI}}");
    reveal_strlit("{{HEAD}}");
    reveal_strlit("{{TITLE}}");
    reveal_strlit("{{BODY}}");
    reveal_strlit("{{ACTIONS}}");
    reveal_strlit("{{BODY_ACTION}}");
    let s = places();
    assert(s[0][2] == 'I' && s[1][2] == 'H' && s[2][2] == 'T' && s[3][2] == 'B' && s[4][2] == 'A'
        && s[5][2] == 'B');
    assert(s[3][6] == '}' && s[5][6] == '_');
}

/// What is put into a page: the template is kept, and each of its places is filled
/// with what belongs there, escaped so that it cannot be taken for markup: the
/// picture, the head, the title, the body with its line feeds as breaks, the
/// buttons, and what a click beside them sends. Stated of templates with one place,
/// and of texts without an opening brace.
pub proof fn law_page_fills_its_places(
    before: Seq<char>,
    behind: Seq<char>,
    icon: Seq<u8>,
    p: Popup,
)
    requires
        no_brace(before),
        no_brace(behind),
        plain_window(p),
    ensures
        page(before + "{{ICON_DATA_URI}}"@ + behind, icon, p) == before + (
        "data:image/png;base64,"@ + encoded(icon)) + behind,
        page(before + "{{HEAD}}"@ + behind, icon, p) == before + escaped(p.head) + behind,
        page(before + "{{TITLE}}"@ + behind, icon, p) == before + escaped(p.title) + behind,
        page(before + "{{BODY}}"@ + behind, icon, p) == before + replaced(
            escaped(p.body),
            "\n"@,
            "<br>"@,
        ) + behind,
        page(before + "{{ACTIONS}}"@ + behind, icon, p) == before + ((if p.secondary is Some {
            button_html("secondary"@, p.secondary->0)
        } else {
            Seq::empty()
        }) + (if p.primary is Some {
            button_html("primary"@, p.primary->0)
        } else {
            Seq::empty()
        })) + behind,
        page(before + "{{BODY_ACTION}}"@ + behind, icon, p) == before + escaped(
            if !p.body_click_dismisses && p.primary is Some {
                p.primary->0.action
            } else {
                "_body"@
            },
        ) + behind,
{
    lemma_parts_no_brace(icon, p);
    lemma_page_of(before, 0, behind, icon, p);
    lemma_page_of(before, 1, behind, icon, p);
    lemma_page_of(before, 2, behind, icon, p);
    lemma_page_of(before, 3, behind, icon, p);
    lemma_page_of(before, 4, behind, icon, p);
    lemma_page_of(before, 5, behind, icon, p);
}

spec fn filling(icon: Seq<u8>, p: Popup) -> Seq<Seq<char>> {
    seq![
        "data:image/png;base64,"@ + encoded(icon),
        escaped(p.head),
        escaped(p.title),
        replaced(escaped(p.body), "\n"@, "<br>"@),
        buttons_html(p),
        escaped(body_action(p)),
    ]
}

/// The template after the first `n` of its places were filled.
spec fn filled(template: Seq<char>, icon: Seq<u8>, p: Popup, n: int) -> Seq<char>
    decreases n,
{
    if n <= 0 {
        template
    } else {
        replaced(filled(template, icon, p, n - 1), places()[n - 1], filling(icon, p)[n - 1])
    }
}

proof fn lemma_filled(before: Seq<char>, at: int, behind: Seq<char>, icon: Seq<u8>, p: Popup, n: int)
    requires
        no_brace(before),
        no_brace(behind),
        plain_window(p),
        0 <= at < 6,
        0 <= n <= 6,
    ensures
        n <= at ==> filled(before + places()[at] + behind, icon, p, n) == before + places()[at]
            + behind,
        n > at ==> filled(before + places()[at] + behind, icon, p, n) == before + filling(
            icon,
            p,
        )[at] + behind,
    decreases n,
{
    lemma_places();
    let s = before + places()[at] + behind;
    if n > 0 {
        lemma_filled(before, at, behind, icon, p, n - 1);
        let place = places()[n - 1];
        let with = filling(icon, p)[n - 1];
        assert(is_place(place) && is_place(places()[at]));
        if n - 1 < at {
            let k = choose|k: int|
                2 <= k < places()[at].len() && k < place.len() && #[trigger] places()[at][k]
                    != place[k];
            lemma_other_place(before, places()[at], behind, place, k);
            law_nothing_else_is_replaced(s, place, with);
        } else if n - 1 == at {
            lemma_fill_place(before, place, behind, with);
        } else {
            lemma_parts_no_brace(icon, p);
            let v = filling(icon, p)[at];
            assert(no_brace(v));
            lemma_no_brace_concat(before, v);
            lemma_no_brace_concat(before + v, behind);
            lemma_no_place(before + v + behind, place);
            law_nothing_else_is_replaced(before + v + behind, place, with);
        }
    }
}

proof fn lemma_page_of(before: Seq<char>, at: int, behind: Seq<char>, icon: Seq<u8>, p: Popup)
    requires
        no_brace(before),
        no_brace(behind),
        plain_window(p),
        0 <= at < 6,
    ensures
        page(before + places()[at] + behind, icon, p) == before + filling(icon, p)[at] + behind,
{
    let t = before + places()[at] + behind;
    lemma_filled(before, at, behind, icon, p, 6);
    reveal_with_fuel(filled, 7);
    assert(filled(t, icon, p, 6) == page(t, icon, p));
}

/// A button shows its label and sends its action, both escaped.
pub proof fn law_button_is_escaped(class: Seq<char>, b: Button)
    ensures
        button_html(class, b) == "<button class=\""@ + class + "\" onclick=\"action('"@ + escaped(
            b.action,
        ) + "', event)\">"@ + escaped(b.label) + "</button>"@,
{
}

/// What is said of a window is what it holds.
pub proof fn law_window_is_what_it_holds(p: PopupConfig)
    ensures
        p@.head == p.head@,
        p@.title == p.title@,
        p@.body == p.body@,
        p@.primary is Some == p.primary is Some,
        p.primary is Some ==> p@.primary->0.label == p.primary->0.label@ && p@.primary->0.action
            == p.primary->0.action@,
        p@.secondary is Some == p.secondary is Some,
        p.secondary is Some ==> p@.secondary->0.label == p.secondary->0.label@
            && p@.secondary->0.action == p.secondary->0.action@,
        p@.body_click_dismisses == p.body_click_dismisses,
        p@.timeout_ms == p.timeout_ms,
        p@.height == p.height,
{
}

/// What is said of the end of a window is what it holds.
pub proof fn law_answer_is_what_it_holds(r: PopupResult)
    ensures
        r is Action <==> r@ is Action,
        r is Action ==> r@->Action_0 == r->Action_0@,
        r is BodyClick <==> r@ is BodyClick,
        r is Timeout <==> r@ is Timeout,
        r is Closed <==> r@ is Closed,
{
}

} // verus!
