//! The applet's state and how it responds to what happens: probe results,
//! menu choices, settings edits, mount outcomes. Each event gives the next
//! state and the effects (probes, commands, saves, popup closing) for the
//! caller to carry out.

use vstd::prelude::*;
use crate::text::{
    decimal, decimal_text, parse_u16, parse_u64, parsed_u16, parsed_u64, trim, trimmed,
};
use crate::config::{
    Config, ConfigView, configured, mountable, non_empty, non_empty_value, copy_opt, max_u64,
    MIN_INTERVAL_SECS, join_lines, joined,
};
use crate::mounts::{
    missing_helper_message, mount_argv, mount_cifs_available, mount_command, unmount_argv,
    unmount_command,
};

verus! {

broadcast use vstd::string::group_string_axioms;

/// The most recent probe result.
#[derive(Clone, Debug)]
pub struct Status {
    /// Whether the TCP connection to the NAS succeeded.
    pub connected: bool,
    /// The NAS's IP address, as text, when the connection succeeded.
    pub address: Option<String>,
    /// The connection's round-trip time in milliseconds, written with one
    /// decimal, when it succeeded.
    pub latency: Option<String>,
    /// Whether the configured mount point is in the mount table.
    pub mounted: bool,
}

#[verifier::ext_equal]
pub struct StatusView {
    pub connected: bool,
    pub address: Option<Seq<char>>,
    pub latency: Option<Seq<char>>,
    pub mounted: bool,
}

impl View for Status {
    type V = StatusView;

    open spec fn view(&self) -> StatusView {
        StatusView {
            connected: self.connected,
            address: self.address.deep_view(),
            latency: self.latency.deep_view(),
            mounted: self.mounted,
        }
    }
}

/// The status before any probe has answered.
pub open spec fn unknown_status() -> StatusView {
    StatusView { connected: false, address: None, latency: None, mounted: false }
}

impl Status {
    /// The status before any probe has answered.
    pub fn unknown() -> (s: Status)
        ensures
            s@ == unknown_status(),
    {
        Status { connected: false, address: None, latency: None, mounted: false }
    }

    /// The result of a probe that could not connect.
    pub fn unreachable(mounted: bool) -> (s: Status)
        ensures
            s@ == (StatusView { mounted, ..unknown_status() }),
    {
        Status { connected: false, address: None, latency: None, mounted }
    }

    /// The result of a probe that connected.
    pub fn reachable(address: Option<String>, latency: String, mounted: bool) -> (s: Status)
        ensures
            s@ == (StatusView {
                connected: true,
                address: address.deep_view(),
                latency: Some(latency@),
                mounted,
            }),
    {
        Status { connected: true, address, latency: Some(latency), mounted }
    }
}

/// The text buffers of the settings form.
pub struct SettingsForm {
    pub host: String,
    pub port: String,
    pub interval_secs: String,
    pub share: String,
    pub mount_point: String,
    pub mount_options: String,
    pub use_pkexec: bool,
}

#[verifier::ext_equal]
pub struct FormView {
    pub host: Seq<char>,
    pub port: Seq<char>,
    pub interval_secs: Seq<char>,
    pub share: Seq<char>,
    pub mount_point: Seq<char>,
    pub mount_options: Seq<char>,
    pub use_pkexec: bool,
}

impl View for SettingsForm {
    type V = FormView;

    open spec fn view(&self) -> FormView {
        FormView {
            host: self.host@,
            port: self.port@,
            interval_secs: self.interval_secs@,
            share: self.share@,
            mount_point: self.mount_point@,
            mount_options: self.mount_options@,
            use_pkexec: self.use_pkexec,
        }
    }
}

/// An empty form.
pub open spec fn blank_form() -> FormView {
    FormView {
        host: Seq::empty(),
        port: Seq::empty(),
        interval_secs: Seq::empty(),
        share: Seq::empty(),
        mount_point: Seq::empty(),
        mount_options: Seq::empty(),
        use_pkexec: false,
    }
}

/// The text of an optional setting, empty when unset.
pub open spec fn text_or_empty(v: Option<Seq<char>>) -> Seq<char> {
    match v {
        Some(t) => t,
        None => Seq::empty(),
    }
}

/// The form filled in from the settings.
pub open spec fn form_of(c: ConfigView) -> FormView {
    FormView {
        host: c.host,
        port: decimal(c.port as nat),
        interval_secs: decimal(c.interval_secs as nat),
        share: text_or_empty(c.share),
        mount_point: text_or_empty(c.mount_point),
        mount_options: text_or_empty(c.mount_options),
        use_pkexec: c.use_pkexec,
    }
}

impl Default for SettingsForm {
    fn default() -> (f: SettingsForm)
        ensures
            f@ == blank_form(),
    {
        SettingsForm {
            host: String::new(),
            port: String::new(),
            interval_secs: String::new(),
            share: String::new(),
            mount_point: String::new(),
            mount_options: String::new(),
            use_pkexec: false,
        }
    }
}

/// The text of an optional setting, empty when unset.
fn text_or_blank(v: &Option<String>) -> (r: String)
    ensures
        r@ == text_or_empty(v.deep_view()),
{
    match v {
        Some(t) => t.clone(),
        None => String::new(),
    }
}

impl SettingsForm {
    /// The form filled in from the settings.
    pub fn from_config(config: &Config) -> (f: SettingsForm)
        ensures
            f@ == form_of(config@),
    {
        SettingsForm {
            host: config.host.clone(),
            port: decimal_text(config.port as u64),
            interval_secs: decimal_text(config.interval_secs),
            share: text_or_blank(&config.share),
            mount_point: text_or_blank(&config.mount_point),
            mount_options: text_or_blank(&config.mount_options),
            use_pkexec: config.use_pkexec,
        }
    }
}


/// Something the caller carries out on the applet's behalf.
pub enum Effect {
    /// Probe the NAS: connect to `host:port` and check whether
    /// `mount_point` is mounted; report the result as `Event::StatusReport`.
    Probe { host: String, port: u16, mount_point: Option<String> },
    /// Run a mount or unmount command line (`verb` is `mount` or `umount`);
    /// report its outcome as `Event::MountDone`.
    RunCommand { verb: String, argv: Vec<String> },
    /// Report a mount that could not be attempted as `Event::MountDone`
    /// with this message.
    RefuseMount { message: String },
    /// Close the popup with this handle.
    ClosePopup { popup: u64 },
    /// Write the settings to the configuration file.
    SaveConfig,
}

pub enum EffectView {
    Probe { host: Seq<char>, port: u16, mount_point: Option<Seq<char>> },
    RunCommand { verb: Seq<char>, argv: Seq<Seq<char>> },
    RefuseMount { message: Seq<char> },
    ClosePopup { popup: u64 },
    SaveConfig,
}

impl View for Effect {
    type V = EffectView;

    open spec fn view(&self) -> EffectView {
        match self {
            Effect::Probe { host, port, mount_point } => EffectView::Probe {
                host: host@,
                port: *port,
                mount_point: mount_point.deep_view(),
            },
            Effect::RunCommand { verb, argv } => EffectView::RunCommand {
                verb: verb@,
                argv: argv.deep_view(),
            },
            Effect::RefuseMount { message } => EffectView::RefuseMount { message: message@ },
            Effect::ClosePopup { popup } => EffectView::ClosePopup { popup: *popup },
            Effect::SaveConfig => EffectView::SaveConfig,
        }
    }
}

/// The views of a list of effects.
pub open spec fn effects_view(effects: Seq<Effect>) -> Seq<EffectView> {
    effects.map_values(|e: Effect| e@)
}

/// An optional effect as a list of none or one.
pub open spec fn opt_effect(e: Option<EffectView>) -> Seq<EffectView> {
    match e {
        Some(x) => seq![x],
        None => Seq::empty(),
    }
}

/// The view of an optional effect.
pub open spec fn opt_effect_view(e: Option<Effect>) -> Option<EffectView> {
    match e {
        Some(x) => Some(x@),
        None => None,
    }
}

/// Something that happened that the applet responds to.
pub enum Event {
    /// The probe interval elapsed.
    Tick,
    /// A probe finished.
    StatusReport(Status),
    /// The right-click popup opened, with this handle.
    PopupOpened(u64),
    /// The popup with this handle was closed.
    PopupClosed(u64),
    /// The user asked to mount the share.
    Connect,
    /// The user asked to unmount the share.
    Disconnect,
    /// A mount or unmount finished: `None` on success, else the message.
    MountDone(Option<String>),
    /// The user opened the settings form.
    OpenSettings,
    /// The user discarded the form.
    CancelSettings,
    /// The user saved the form.
    SaveSettings,
    EditHost(String),
    EditPort(String),
    EditInterval(String),
    EditShare(String),
    EditMountPoint(String),
    EditMountOptions(String),
    EditPkexec(bool),
}

/// The applet's state, apart from the label font size, which the caller
/// keeps.
pub struct Applet {
    pub config: Config,
    pub status: Status,
    /// The handle of the open right-click popup, if any.
    pub popup: Option<u64>,
    /// Whether the popup shows the settings form rather than the menu.
    pub editing: bool,
    /// The settings form's buffers.
    pub form: SettingsForm,
    /// The last mount or unmount error to show, if any.
    pub last_error: Option<String>,
}

#[verifier::ext_equal]
pub struct AppletView {
    pub config: ConfigView,
    pub status: StatusView,
    pub popup: Option<u64>,
    pub editing: bool,
    pub form: FormView,
    pub last_error: Option<Seq<char>>,
}

impl View for Applet {
    type V = AppletView;

    open spec fn view(&self) -> AppletView {
        AppletView {
            config: self.config@,
            status: self.status@,
            popup: self.popup,
            editing: self.editing,
            form: self.form@,
            last_error: self.last_error.deep_view(),
        }
    }
}

/// The probe to run for these settings: none until a host is configured.
pub open spec fn probe_effect(c: ConfigView) -> Option<EffectView> {
    if configured(c) {
        Some(EffectView::Probe { host: c.host, port: c.port, mount_point: c.mount_point })
    } else {
        None
    }
}

/// What a request to mount gives: nothing without a share and a mount
/// point; a refusal when the CIFS helper is missing; else the command.
pub open spec fn mount_effect(c: ConfigView, helper_present: bool) -> Option<EffectView> {
    match mount_argv(c) {
        Some(argv) => if helper_present {
            Some(EffectView::RunCommand { verb: "mount"@, argv })
        } else {
            Some(EffectView::RefuseMount { message: missing_helper_message() })
        },
        None => None,
    }
}

/// What a request to unmount gives: the command, when a mount point is set.
pub open spec fn unmount_effect(c: ConfigView) -> Option<EffectView> {
    match unmount_argv(c) {
        Some(argv) => Some(EffectView::RunCommand { verb: "umount"@, argv }),
        None => None,
    }
}

/// Closing the popup, if one is open.
pub open spec fn close_effect(popup: Option<u64>) -> Option<EffectView> {
    match popup {
        Some(id) => Some(EffectView::ClosePopup { popup: id }),
        None => None,
    }
}

/// The settings that saving the form gives: the host trimmed; a port or
/// interval only when its trimmed text is a number (a port also only when
/// not 0; an interval at least the minimum); the mount settings trimmed,
/// empty meaning unset.
pub open spec fn applied_settings(c: ConfigView, f: FormView) -> ConfigView {
    ConfigView {
        host: trim(f.host),
        port: match parsed_u16(trim(f.port)) {
            Some(p) => if p != 0 {
                p
            } else {
                c.port
            },
            None => c.port,
        },
        interval_secs: match parsed_u64(trim(f.interval_secs)) {
            Some(n) => max_u64(n, MIN_INTERVAL_SECS),
            None => c.interval_secs,
        },
        share: non_empty_value(trim(f.share)),
        mount_point: non_empty_value(trim(f.mount_point)),
        mount_options: non_empty_value(trim(f.mount_options)),
        use_pkexec: f.use_pkexec,
    }
}

/// How the applet responds to `event` in state `s`: the next state and the
/// effects, in order. `helper_present` is whether the CIFS mount helper is
/// installed, which only a request to mount asks.
pub open spec fn step(s: AppletView, event: Event, helper_present: bool) -> (AppletView, Seq<EffectView>) {
    match event {
        Event::Tick => (s, opt_effect(probe_effect(s.config))),
        Event::StatusReport(st) => (AppletView { status: st@, ..s }, Seq::empty()),
        Event::PopupOpened(id) => (AppletView { popup: Some(id), ..s }, Seq::empty()),
        Event::PopupClosed(id) => if s.popup == Some(id) {
            (AppletView { popup: None, editing: false, ..s }, Seq::empty())
        } else {
            (s, Seq::empty())
        },
        Event::Connect => (
            AppletView { last_error: None, popup: None, ..s },
            opt_effect(close_effect(s.popup)) + opt_effect(mount_effect(s.config, helper_present)),
        ),
        Event::Disconnect => (
            AppletView { last_error: None, popup: None, ..s },
            opt_effect(close_effect(s.popup)) + opt_effect(unmount_effect(s.config)),
        ),
        Event::MountDone(result) => (
            AppletView { last_error: result.deep_view(), ..s },
            opt_effect(probe_effect(s.config)),
        ),
        Event::OpenSettings => (AppletView { form: form_of(s.config), editing: true, ..s }, Seq::empty()),
        Event::CancelSettings => (AppletView { editing: false, ..s }, Seq::empty()),
        Event::SaveSettings => {
            let c = applied_settings(s.config, s.form);
            (
                AppletView { config: c, editing: false, popup: None, ..s },
                seq![EffectView::SaveConfig] + opt_effect(close_effect(s.popup)) + opt_effect(
                    probe_effect(c),
                ),
            )
        },
        Event::EditHost(v) => (AppletView { form: FormView { host: v@, ..s.form }, ..s }, Seq::empty()),
        Event::EditPort(v) => (AppletView { form: FormView { port: v@, ..s.form }, ..s }, Seq::empty()),
        Event::EditInterval(v) => (
            AppletView { form: FormView { interval_secs: v@, ..s.form }, ..s },
            Seq::empty(),
        ),
        Event::EditShare(v) => (AppletView { form: FormView { share: v@, ..s.form }, ..s }, Seq::empty()),
        Event::EditMountPoint(v) => (
            AppletView { form: FormView { mount_point: v@, ..s.form }, ..s },
            Seq::empty(),
        ),
        Event::EditMountOptions(v) => (
            AppletView { form: FormView { mount_options: v@, ..s.form }, ..s },
            Seq::empty(),
        ),
        Event::EditPkexec(v) => (AppletView { form: FormView { use_pkexec: v, ..s.form }, ..s }, Seq::empty()),
    }
}


/// The color of the panel label.
#[derive(Clone, Copy, Debug, PartialEq, Eq, Structural)]
pub enum LabelColor {
    /// Not configured yet.
    Grey,
    /// The NAS is unreachable.
    Red,
    /// Reachable, and mounted or with no mount configured.
    Green,
    /// Reachable, but the configured share is not mounted.
    Orange,
}

/// The label color: grey before configuration, red when unreachable, green
/// when the share is mounted or no mount is configured, orange when
/// reachable but not mounted.
pub open spec fn color_of(c: ConfigView, st: StatusView) -> LabelColor {
    if !configured(c) {
        LabelColor::Grey
    } else if !st.connected {
        LabelColor::Red
    } else if !mountable(c) || st.mounted {
        LabelColor::Green
    } else {
        LabelColor::Orange
    }
}

/// The one-line status summary, matching the label color.
pub open spec fn summary_of(c: ConfigView, st: StatusView) -> Seq<char> {
    if !configured(c) {
        "NAS — Not configured"@
    } else if !st.connected {
        "NAS — Unreachable"@
    } else if !mountable(c) {
        "NAS — Connected"@
    } else if st.mounted {
        "NAS — Mounted"@
    } else {
        "NAS — Reachable, not mounted"@
    }
}

/// The lines of the hover tooltip.
pub open spec fn tooltip_lines(s: AppletView) -> Seq<Seq<char>> {
    let c = s.config;
    let st = s.status;
    let head = seq![summary_of(c, st)];
    if !configured(c) {
        head.push("Right-click → Settings to configure"@)
    } else {
        let port = decimal(c.port as nat);
        head.push("Host: "@ + c.host + ":"@ + port) + match st.address {
            Some(a) => seq!["Address: "@ + a],
            None => Seq::empty(),
        } + match st.latency {
            Some(l) => seq!["Latency: "@ + l + " ms"@],
            None => if !st.connected {
                seq!["No response on port "@ + port]
            } else {
                Seq::empty()
            },
        } + match c.mount_point {
            Some(mp) => if mountable(c) {
                if st.mounted {
                    seq!["Mounted at "@ + mp]
                } else {
                    seq!["Not mounted"@]
                }
            } else {
                Seq::empty()
            },
            None => Seq::empty(),
        } + seq!["Checked every "@ + decimal(c.interval_secs as nat) + "s"@] + match s.last_error {
            Some(e) => seq!["⚠ "@ + e],
            None => Seq::empty(),
        }
    }
}

/// The entry of the right-click menu that mounts or unmounts the share.
#[derive(Clone, Copy, Debug, PartialEq, Eq, Structural)]
pub enum MountAction {
    Connect,
    Disconnect,
}

/// What the right-click menu shows, apart from the font-size controls and
/// the fixed entries.
pub struct Menu {
    /// The status summary heading the menu.
    pub header: String,
    /// `host:port`, once configured.
    pub host_line: Option<String>,
    /// The last mount error, marked with a warning sign.
    pub error_line: Option<String>,
    /// Connect or Disconnect, when a share and a mount point are configured.
    pub mount_action: Option<MountAction>,
}

/// The mount entry of the menu: Disconnect when mounted, Connect when not;
/// none unless a share and mount point are configured.
pub open spec fn mount_action_of(c: ConfigView, st: StatusView) -> Option<MountAction> {
    if mountable(c) {
        if st.mounted {
            Some(MountAction::Disconnect)
        } else {
            Some(MountAction::Connect)
        }
    } else {
        None
    }
}

/// Appends an optional effect.
fn push_opt(effects: &mut Vec<Effect>, e: Option<Effect>)
    ensures
        effects_view(final(effects)@) == effects_view(old(effects)@) + opt_effect(opt_effect_view(e)),
{
    let ghost before = effects@;
    match e {
        Some(x) => {
            effects.push(x);
            proof {
                assert(effects_view(effects@) =~= effects_view(before) + opt_effect(opt_effect_view(e)));
            }
        },
        None => {
            proof {
                assert(effects_view(effects@) =~= effects_view(before) + opt_effect(opt_effect_view(e)));
            }
        },
    }
}

impl Applet {
    /// The state at start-up with these settings, and the first probe.
    pub fn new(config: Config) -> (r: (Applet, Vec<Effect>))
        ensures
            r.0@ == (AppletView {
                config: config@,
                status: unknown_status(),
                popup: None,
                editing: false,
                form: blank_form(),
                last_error: None,
            }),
            effects_view(r.1@) == opt_effect(probe_effect(config@)),
    {
        let app = Applet {
            config,
            status: Status::unknown(),
            popup: None,
            editing: false,
            form: SettingsForm::default(),
            last_error: None,
        };
        let mut effects: Vec<Effect> = Vec::new();
        let first = app.check_task();
        push_opt(&mut effects, first);
        proof {
            assert(effects_view(Seq::<Effect>::empty()) =~= Seq::<EffectView>::empty());
            assert(Seq::<EffectView>::empty() + opt_effect(opt_effect_view(first)) =~= opt_effect(
                opt_effect_view(first),
            ));
        }
        (app, effects)
    }

    /// The probe to run now, if a host is configured.
    pub fn check_task(&self) -> (r: Option<Effect>)
        ensures
            opt_effect_view(r) == probe_effect(self@.config),
    {
        if !self.config.is_configured() {
            return None;
        }
        Some(
            Effect::Probe {
                host: self.config.host.clone(),
                port: self.config.port,
                mount_point: copy_opt(&self.config.mount_point),
            },
        )
    }

    /// What a request to mount gives, given whether the CIFS mount helper
    /// is installed.
    pub fn mount_plan(&self, helper_present: bool) -> (r: Option<Effect>)
        ensures
            opt_effect_view(r) == mount_effect(self@.config, helper_present),
    {
        match mount_command(&self.config) {
            Some(argv) => {
                if helper_present {
                    Some(Effect::RunCommand { verb: String::from_str("mount"), argv })
                } else {
                    Some(
                        Effect::RefuseMount {
                            message: String::from_str("cifs-utils not installed (mount.cifs missing)"),
                        },
                    )
                }
            },
            None => None,
        }
    }

    /// What a request to mount gives: the CIFS mount helper is looked for
    /// when a share and a mount point are configured.
    pub fn mount_task(&self) -> (r: Option<Effect>)
        ensures
            exists|helper_present: bool| opt_effect_view(r) == mount_effect(self@.config, helper_present),
    {
        let helper_present = if self.config.is_mountable() {
            mount_cifs_available()
        } else {
            false
        };
        self.mount_plan(helper_present)
    }

    /// What a request to unmount gives.
    pub fn unmount_task(&self) -> (r: Option<Effect>)
        ensures
            opt_effect_view(r) == unmount_effect(self@.config),
    {
        match unmount_command(&self.config) {
            Some(argv) => Some(Effect::RunCommand { verb: String::from_str("umount"), argv }),
            None => None,
        }
    }

    /// Closes the popup, if one is open.
    pub fn close_popup_task(&mut self) -> (r: Option<Effect>)
        ensures
            final(self)@ == (AppletView { popup: None, ..old(self)@ }),
            opt_effect_view(r) == close_effect(old(self)@.popup),
    {
        match self.popup.take() {
            Some(id) => Some(Effect::ClosePopup { popup: id }),
            None => None,
        }
    }

    /// Takes the settings form into the settings; the returned effect saves
    /// them.
    pub fn apply_settings(&mut self) -> (r: Effect)
        ensures
            final(self)@ == (AppletView {
                config: applied_settings(old(self)@.config, old(self)@.form),
                ..old(self)@
            }),
            r@ == EffectView::SaveConfig,
    {
        self.config.host = trimmed(self.form.host.as_str());
        match parse_u16(trimmed(self.form.port.as_str()).as_str()) {
            Some(port) => {
                if port != 0 {
                    self.config.port = port;
                }
            },
            None => {},
        }
        match parse_u64(trimmed(self.form.interval_secs.as_str()).as_str()) {
            Some(secs) => {
                self.config.interval_secs = if secs >= MIN_INTERVAL_SECS {
                    secs
                } else {
                    MIN_INTERVAL_SECS
                };
            },
            None => {},
        }
        self.config.share = non_empty(trimmed(self.form.share.as_str()).as_str());
        self.config.mount_point = non_empty(trimmed(self.form.mount_point.as_str()).as_str());
        self.config.mount_options = non_empty(trimmed(self.form.mount_options.as_str()).as_str());
        self.config.use_pkexec = self.form.use_pkexec;
        Effect::SaveConfig
    }

    /// The label color.
    pub fn label_color(&self) -> (r: LabelColor)
        ensures
            r == color_of(self@.config, self@.status),
    {
        if !self.config.is_configured() {
            LabelColor::Grey
        } else if !self.status.connected {
            LabelColor::Red
        } else if !self.config.is_mountable() || self.status.mounted {
            LabelColor::Green
        } else {
            LabelColor::Orange
        }
    }

    /// The one-line status summary.
    pub fn status_summary(&self) -> (r: &'static str)
        ensures
            r@ == summary_of(self@.config, self@.status),
    {
        if !self.config.is_configured() {
            "NAS — Not configured"
        } else if !self.status.connected {
            "NAS — Unreachable"
        } else if !self.config.is_mountable() {
            "NAS — Connected"
        } else if self.status.mounted {
            "NAS — Mounted"
        } else {
            "NAS — Reachable, not mounted"
        }
    }

    /// The text of the hover tooltip: its lines joined with newlines.
    pub fn tooltip_text(&self) -> (r: String)
        ensures
            r@ == join_lines(tooltip_lines(self@)),
    {
        let mut lines: Vec<String> = Vec::new();
        lines.push(String::from_str(self.status_summary()));
        if !self.config.is_configured() {
            lines.push(String::from_str("Right-click → Settings to configure"));
            proof {
                assert(lines.deep_view() =~= tooltip_lines(self@));
            }
            return joined(&lines);
        }
        let port = decimal_text(self.config.port as u64);
        let mut host_line = String::from_str("Host: ");
        host_line.append(self.config.host.as_str());
        host_line.append(":");
        host_line.append(port.as_str());
        lines.push(host_line);
        match &self.status.address {
            Some(addr) => {
                let mut l = String::from_str("Address: ");
                l.append(addr.as_str());
                lines.push(l);
            },
            None => {},
        }
        match &self.status.latency {
            Some(latency) => {
                let mut l = String::from_str("Latency: ");
                l.append(latency.as_str());
                l.append(" ms");
                lines.push(l);
            },
            None => {
                if !self.status.connected {
                    let mut l = String::from_str("No response on port ");
                    l.append(port.as_str());
                    lines.push(l);
                }
            },
        }
        match &self.config.mount_point {
            Some(mount_point) => {
                if self.config.is_mountable() {
                    if self.status.mounted {
                        let mut l = String::from_str("Mounted at ");
                        l.append(mount_point.as_str());
                        lines.push(l);
                    } else {
                        lines.push(String::from_str("Not mounted"));
                    }
                }
            },
            None => {},
        }
        let mut every = String::from_str("Checked every ");
        every.append(decimal_text(self.config.interval_secs).as_str());
        every.append("s");
        lines.push(every);
        match &self.last_error {
            Some(err) => {
                let mut l = String::from_str("⚠ ");
                l.append(err.as_str());
                lines.push(l);
            },
            None => {},
        }
        proof {
            assert(lines.deep_view() =~= tooltip_lines(self@));
        }
        joined(&lines)
    }

    /// What the right-click menu shows.
    pub fn menu(&self) -> (m: Menu)
        ensures
            m.header@ == summary_of(self@.config, self@.status),
            m.host_line.deep_view() == (if configured(self@.config) {
                Some(self@.config.host + ":"@ + decimal(self@.config.port as nat))
            } else {
                None
            }),
            m.error_line.deep_view() == (match self@.last_error {
                Some(e) => Some("⚠ "@ + e),
                None => None,
            }),
            m.mount_action == mount_action_of(self@.config, self@.status),
    {
        let host_line = if self.config.is_configured() {
            let mut l = self.config.host.clone();
            l.append(":");
            l.append(decimal_text(self.config.port as u64).as_str());
            Some(l)
        } else {
            None
        };
        let error_line = match &self.last_error {
            Some(err) => {
                let mut l = String::from_str("⚠ ");
                l.append(err.as_str());
                Some(l)
            },
            None => None,
        };
        let mount_action = if self.config.is_mountable() {
            if self.status.mounted {
                Some(MountAction::Disconnect)
            } else {
                Some(MountAction::Connect)
            }
        } else {
            None
        };
        Menu { header: String::from_str(self.status_summary()), host_line, error_line, mount_action }
    }

    /// Responds to `event` (see `step`), given whether the CIFS mount helper
    /// is installed; returns the effects to carry out, in order.
    pub fn handle(&mut self, event: Event, helper_present: bool) -> (effects: Vec<Effect>)
        ensures
            (final(self)@, effects_view(effects@)) == step(old(self)@, event, helper_present),
    {
        let ghost s = self@;
        let ghost ev = event;
        let mut effects: Vec<Effect> = Vec::new();
        proof {
            assert(effects_view(effects@) =~= Seq::<EffectView>::empty());
        }
        match event {
            Event::Tick => {
                let probe = self.check_task();
                push_opt(&mut effects, probe);
            },
            Event::StatusReport(status) => {
                self.status = status;
            },
            Event::PopupOpened(id) => {
                self.popup = Some(id);
            },
            Event::PopupClosed(id) => {
                if self.popup == Some(id) {
                    self.popup = None;
                    self.editing = false;
                }
            },
            Event::Connect => {
                self.last_error = None;
                let close = self.close_popup_task();
                push_opt(&mut effects, close);
                let mount = self.mount_plan(helper_present);
                push_opt(&mut effects, mount);
            },
            Event::Disconnect => {
                self.last_error = None;
                let close = self.close_popup_task();
                push_opt(&mut effects, close);
                let unmount = self.unmount_task();
                push_opt(&mut effects, unmount);
            },
            Event::MountDone(result) => {
                self.last_error = result;
                let probe = self.check_task();
                push_opt(&mut effects, probe);
            },
            Event::OpenSettings => {
                self.form = SettingsForm::from_config(&self.config);
                self.editing = true;
            },
            Event::CancelSettings => {
                self.editing = false;
            },
            Event::SaveSettings => {
                let save = self.apply_settings();
                effects.push(save);
                self.editing = false;
                let close = self.close_popup_task();
                push_opt(&mut effects, close);
                let probe = self.check_task();
                push_opt(&mut effects, probe);
            },
            Event::EditHost(v) => {
                self.form.host = v;
            },
            Event::EditPort(v) => {
                self.form.port = v;
            },
            Event::EditInterval(v) => {
                self.form.interval_secs = v;
            },
            Event::EditShare(v) => {
                self.form.share = v;
            },
            Event::EditMountPoint(v) => {
                self.form.mount_point = v;
            },
            Event::EditMountOptions(v) => {
                self.form.mount_options = v;
            },
            Event::EditPkexec(v) => {
                self.form.use_pkexec = v;
            },
        }
        proof {
            assert(effects_view(effects@) =~= step(s, ev, helper_present).1);
            assert(self@ =~= step(s, ev, helper_present).0);
        }
        effects
    }

    /// Responds to `event`, looking for the CIFS mount helper when asked to
    /// mount a configured share; returns the effects to carry out, in order.
    pub fn update(&mut self, event: Event) -> (effects: Vec<Effect>)
        ensures
            exists|helper_present: bool|
                (final(self)@, effects_view(effects@)) == step(old(self)@, event, helper_present),
    {
        let helper_present = match event {
            Event::Connect => if self.config.is_mountable() {
                mount_cifs_available()
            } else {
                false
            },
            _ => false,
        };
        self.handle(event, helper_present)
    }
}

} // verus!
