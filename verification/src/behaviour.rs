//! Properties of the applet's responses that hold in every state.

use vstd::prelude::*;
use crate::text::{decimal, trim, lemma_decimal_reads_back};
use crate::config::{ConfigView, configured, mountable, MIN_INTERVAL_SECS};
use crate::mounts::{mount_argv, unmount_argv};
use crate::applet::{
    AppletView, StatusView, LabelColor, Event, EffectView, step, color_of, summary_of,
    applied_settings, form_of, text_or_empty, tooltip_lines, mount_effect, mount_action_of,
    probe_effect,
};
use crate::persistence::lemma_decimal_storable;

verus! {

/// The label color and the status summary always tell the same story:
/// grey is "not configured", red "unreachable", orange "reachable, not
/// mounted", and green "connected" or "mounted".
pub proof fn lemma_color_matches_summary(c: ConfigView, st: StatusView)
    ensures
        (color_of(c, st) == LabelColor::Grey) == (summary_of(c, st) == "NAS — Not configured"@),
        (color_of(c, st) == LabelColor::Red) == (summary_of(c, st) == "NAS — Unreachable"@),
        (color_of(c, st) == LabelColor::Orange) == (summary_of(c, st)
            == "NAS — Reachable, not mounted"@),
        (color_of(c, st) == LabelColor::Green) == (summary_of(c, st) == "NAS — Connected"@
            || summary_of(c, st) == "NAS — Mounted"@),
{
    reveal_strlit("NAS — Not configured");
    reveal_strlit("NAS — Unreachable");
    reveal_strlit("NAS — Reachable, not mounted");
    reveal_strlit("NAS — Connected");
    reveal_strlit("NAS — Mounted");
    assert("NAS — Not configured"@[6] == 'N');
    assert("NAS — Unreachable"@[6] == 'U');
    assert("NAS — Reachable, not mounted"@[6] == 'R');
    assert("NAS — Connected"@[6] == 'C');
    assert("NAS — Mounted"@[6] == 'M');
}

/// With no mount configured there is no "mounted" state: once configured,
/// the label is green when the NAS is reachable and red when it is not.
pub proof fn lemma_unmountable_color(c: ConfigView, st: StatusView)
    requires
        configured(c),
        !mountable(c),
    ensures
        color_of(c, st) == LabelColor::Green || color_of(c, st) == LabelColor::Red,
        (color_of(c, st) == LabelColor::Green) == st.connected,
{
}

/// No response takes the probe interval below its minimum.
pub proof fn lemma_step_keeps_interval(s: AppletView, event: Event, helper_present: bool)
    requires
        s.config.interval_secs >= MIN_INTERVAL_SECS,
    ensures
        step(s, event, helper_present).0.config.interval_secs >= MIN_INTERVAL_SECS,
{
}

/// Opening, editing and cancelling the settings form changes no setting
/// and asks for nothing to be done.
pub proof fn lemma_form_events_keep_settings(s: AppletView, event: Event, helper_present: bool)
    requires
        match event {
            Event::OpenSettings | Event::CancelSettings | Event::EditHost(_) | Event::EditPort(_)
            | Event::EditInterval(_) | Event::EditShare(_) | Event::EditMountPoint(_)
            | Event::EditMountOptions(_) | Event::EditPkexec(_) => true,
            _ => false,
        },
    ensures
        step(s, event, helper_present).0.config == s.config,
        step(s, event, helper_present).1.len() == 0,
{
}

/// Settings that the form shows as they are: text values trimmed (set
/// ones nonempty), and an interval that saving the form keeps.
pub open spec fn form_faithful(c: ConfigView) -> bool {
    &&& trim(c.host) == c.host
    &&& c.interval_secs >= MIN_INTERVAL_SECS
    &&& c.share is Some ==> c.share->0.len() > 0 && trim(c.share->0) == c.share->0
    &&& c.mount_point is Some ==> c.mount_point->0.len() > 0 && trim(c.mount_point->0)
        == c.mount_point->0
    &&& c.mount_options is Some ==> c.mount_options->0.len() > 0 && trim(c.mount_options->0)
        == c.mount_options->0
}

/// Saving the settings form as it was filled in leaves the settings as
/// they were.
pub proof fn lemma_unedited_form_keeps_settings(c: ConfigView)
    requires
        form_faithful(c),
    ensures
        applied_settings(c, form_of(c)) == c,
{
    lemma_decimal_storable(c.port as nat);
    lemma_decimal_storable(c.interval_secs as nat);
    lemma_decimal_reads_back(c.port as nat);
    lemma_decimal_reads_back(c.interval_secs as nat);
    let f = form_of(c);
    if c.host.len() == 0 {
        assert(c.host =~= Seq::<char>::empty());
    }
    if c.share is None {
        assert(trim(text_or_empty(c.share)) == Seq::<char>::empty());
    }
    if c.mount_point is None {
        assert(trim(text_or_empty(c.mount_point)) == Seq::<char>::empty());
    }
    if c.mount_options is None {
        assert(trim(text_or_empty(c.mount_options)) == Seq::<char>::empty());
    }
    assert(applied_settings(c, f) =~= c);
}

/// Opening the settings form and saving it unedited keeps the settings,
/// and saves and probes them.
pub proof fn lemma_open_then_save_keeps_settings(s: AppletView, b1: bool, b2: bool)
    requires
        form_faithful(s.config),
    ensures
        ({
            let s1 = step(s, Event::OpenSettings, b1).0;
            let (s2, effects) = step(s1, Event::SaveSettings, b2);
            &&& s2.config == s.config
            &&& !s2.editing
            &&& s2.popup is None
            &&& effects[0] == EffectView::SaveConfig
        }),
{
    lemma_unedited_form_keeps_settings(s.config);
}

/// The menu offers Connect or Disconnect, and a mount is attempted or
/// refused, only when a share and a mount point are configured.
pub proof fn lemma_mount_needs_mountable(c: ConfigView, st: StatusView, helper_present: bool)
    ensures
        (mount_action_of(c, st) is Some) == mountable(c),
        (mount_argv(c) is Some) == mountable(c),
        (mount_effect(c, helper_present) is Some) == mountable(c),
        (unmount_argv(c) is Some) == (c.mount_point is Some),
{
}

/// The NAS is probed on each tick exactly when a host is configured.
pub proof fn lemma_probe_only_when_configured(s: AppletView, helper_present: bool)
    ensures
        (step(s, Event::Tick, helper_present).1.len() > 0) == configured(s.config),
        step(s, Event::Tick, helper_present).0 == s,
{
}

/// A failed mount or unmount is shown as the last line of the tooltip,
/// until the next request to mount or unmount clears it.
pub proof fn lemma_mount_error_shown(s: AppletView, message: String, helper_present: bool)
    requires
        configured(s.config),
    ensures
        ({
            let after = step(s, Event::MountDone(Some(message)), helper_present).0;
            tooltip_lines(after).last() == "⚠ "@ + message@
        }),
        step(s, Event::Connect, helper_present).0.last_error is None,
        step(s, Event::Disconnect, helper_present).0.last_error is None,
{
}

/// Closing a popup other than the open one changes nothing.
pub proof fn lemma_other_popup_closed(s: AppletView, id: u64, helper_present: bool)
    requires
        s.popup != Some(id),
    ensures
        step(s, Event::PopupClosed(id), helper_present) == (s, Seq::<EffectView>::empty()),
{
}


/// Once a host is configured, a probe that did not connect shows red and
/// "Unreachable", whatever the mounted flag says; and green is only ever
/// shown for a NAS that answered.
pub proof fn lemma_unreachable_is_red(c: ConfigView, st: StatusView)
    ensures
        configured(c) && !st.connected ==> color_of(c, st) == LabelColor::Red && summary_of(c, st)
            == "NAS — Unreachable"@,
        color_of(c, st) == LabelColor::Green ==> st.connected && configured(c),
        color_of(c, st) == LabelColor::Orange ==> st.connected && !st.mounted,
{
}

/// The probe carries the configured host, port and mount point, and a tick
/// asks for exactly that probe once a host is configured.
pub proof fn lemma_probe_carries_settings(s: AppletView, helper_present: bool)
    ensures
        configured(s.config) ==> probe_effect(s.config) == Some(
            EffectView::Probe {
                host: s.config.host,
                port: s.config.port,
                mount_point: s.config.mount_point,
            },
        ),
        !configured(s.config) ==> probe_effect(s.config) is None,
        configured(s.config) ==> step(s, Event::Tick, helper_present).1 == seq![
            EffectView::Probe {
                host: s.config.host,
                port: s.config.port,
                mount_point: s.config.mount_point,
            },
        ],
{
}

/// With a share and a mount point configured, the tooltip's line about the
/// mount (the one before "Checked every …", and the warning if any) says
/// "Mounted at <mount point>" when the status says mounted and "Not
/// mounted" when it does not, whether or not the NAS answered; and it has a
/// "Mounted at" line exactly when the status says mounted.
pub proof fn lemma_tooltip_mount_line(s: AppletView, mp: Seq<char>)
    requires
        configured(s.config),
        mountable(s.config),
        s.config.mount_point == Some(mp),
    ensures
        ({
            let ls = tooltip_lines(s);
            let k = ls.len() - 2 - (if s.last_error is Some {
                1int
            } else {
                0int
            });
            &&& ls[k] == (if s.status.mounted {
                "Mounted at "@ + mp
            } else {
                "Not mounted"@
            })
            &&& ls.contains("Mounted at "@ + mp) == s.status.mounted
        }),
{
    let c = s.config;
    let st = s.status;
    let ls = tooltip_lines(s);
    let port = decimal(c.port as nat);
    let a = seq![summary_of(c, st)].push("Host: "@ + c.host + ":"@ + port) + match st.address {
        Some(x) => seq!["Address: "@ + x],
        None => Seq::empty(),
    } + match st.latency {
        Some(l) => seq!["Latency: "@ + l + " ms"@],
        None => if !st.connected {
            seq!["No response on port "@ + port]
        } else {
            Seq::empty()
        },
    };
    let m = if st.mounted {
        seq!["Mounted at "@ + mp]
    } else {
        seq!["Not mounted"@]
    };
    let tail = seq!["Checked every "@ + decimal(c.interval_secs as nat) + "s"@] + match s.last_error {
        Some(e) => seq!["⚠ "@ + e],
        None => Seq::<Seq<char>>::empty(),
    };
    assert(ls == a + m + tail);
    let k = a.len() as int;
    assert(ls[k] == m[0]);
    reveal_strlit("Mounted at ");
    reveal_strlit("Not mounted");
    reveal_strlit("Host: ");
    reveal_strlit("Address: ");
    reveal_strlit("Latency: ");
    reveal_strlit("No response on port ");
    reveal_strlit("Checked every ");
    reveal_strlit("⚠ ");
    reveal_strlit("NAS — Not configured");
    reveal_strlit("NAS — Unreachable");
    reveal_strlit("NAS — Reachable, not mounted");
    reveal_strlit("NAS — Connected");
    reveal_strlit("NAS — Mounted");
    let target = "Mounted at "@ + mp;
    assert(target[0] == 'M');
    assert forall|i: int| 0 <= i < ls.len() && i != k implies (#[trigger] ls[i])[0] != 'M' by {
        if i < a.len() {
            if i == 0 {
                assert(ls[i] == summary_of(c, st));
            } else if i == 1 {
                assert(ls[i] == "Host: "@ + c.host + ":"@ + port);
            } else {
                assert(ls[i] == a[i]);
            }
        } else {
            assert(ls[i] == tail[i - k - 1]);
        }
    }
    if st.mounted {
        assert(ls[k] == target);
    } else {
        assert(ls[k][0] == 'N');
        if ls.contains(target) {
            let i = choose|i: int| 0 <= i < ls.len() && ls[i] == target;
            assert(ls[i][0] == 'M');
        }
    }
}


/// Once the NAS answers and a share and mount point are configured, the
/// label is green and the summary "Mounted" exactly when the share is
/// mounted, and orange with "Reachable, not mounted" otherwise; with no
/// mount configured an answering NAS is green and "Connected".
pub proof fn lemma_reachable_colors(c: ConfigView, st: StatusView)
    requires
        configured(c),
        st.connected,
    ensures
        mountable(c) ==> (color_of(c, st) == LabelColor::Green) == st.mounted,
        mountable(c) && st.mounted ==> summary_of(c, st) == "NAS — Mounted"@,
        mountable(c) && !st.mounted ==> color_of(c, st) == LabelColor::Orange && summary_of(c, st)
            == "NAS — Reachable, not mounted"@,
        !mountable(c) ==> color_of(c, st) == LabelColor::Green && summary_of(c, st)
            == "NAS — Connected"@,
{
}

/// The tooltip starts with the summary; before a host is configured it
/// only adds how to configure one; after, its second line is
/// "Host: <host>:<port>", and it ends with the probe interval and then,
/// if there is one, the last mount error.
pub proof fn lemma_tooltip_frame(s: AppletView)
    ensures
        ({
            let ls = tooltip_lines(s);
            let c = s.config;
            &&& ls[0] == summary_of(c, s.status)
            &&& !configured(c) ==> ls == seq![
                summary_of(c, s.status),
                "Right-click → Settings to configure"@,
            ]
            &&& configured(c) ==> ls[1] == "Host: "@ + c.host + ":"@ + decimal(c.port as nat)
            &&& configured(c) && s.last_error is None ==> ls.last() == "Checked every "@ + decimal(
                c.interval_secs as nat,
            ) + "s"@
            &&& configured(c) && s.last_error is Some ==> ls.last() == "⚠ "@ + s.last_error->0
                && ls[ls.len() - 2] == "Checked every "@ + decimal(c.interval_secs as nat) + "s"@
        }),
{
    let ls = tooltip_lines(s);
    if !configured(s.config) {
        assert(ls =~= seq![summary_of(s.config, s.status), "Right-click → Settings to configure"@]);
    }
}

} // verus!
