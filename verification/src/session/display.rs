//! What a display server says of a session, and how it can darken its panel.
use vstd::prelude::*;
use vstd::string::StringExecFns;

use crate::session::backend::Idle;
use crate::text::same;
use crate::time::Duration;

verus! {

/// After how long a compositor says that nobody uses the session: in seconds.
pub const NOTIFY_TIMEOUT_SECS: u64 = 10;

/// Why a compositor without a way to tell cannot be used.
pub const NO_IDLE_PROTOCOL: &'static str =
    "this compositor does not implement ext-idle-notify-v1, so real input cannot be observed. idlectl will not guess: install a compositor that supports it, or run the daemon on a machine with no graphical session.";

/// What a compositor offers, as far as it is of use.
#[derive(Clone, Copy, PartialEq, Eq, Debug, Structural)]
pub enum Global {
    /// To say when nobody uses the session.
    IdleNotifier,
    /// What is used: keyboards and the like.
    Seat,
    /// To darken panels by the protocol of wlroots.
    OutputPower,
    /// To darken panels by the protocol of KWin.
    Dpms,
    /// A panel.
    Output,
}

impl Global {
    /// What it is called.
    pub open spec fn text(self) -> Seq<char> {
        match self {
            Global::IdleNotifier => "ext_idle_notifier_v1"@,
            Global::Seat => "wl_seat"@,
            Global::OutputPower => "zwlr_output_power_manager_v1"@,
            Global::Dpms => "org_kde_kwin_dpms_manager"@,
            Global::Output => "wl_output"@,
        }
    }

    /// The newest version of it that is understood.
    pub open spec fn newest(self) -> u32 {
        match self {
            Global::IdleNotifier => 1,
            Global::Seat => 7,
            Global::OutputPower => 1,
            Global::Dpms => 1,
            Global::Output => 4,
        }
    }

    /// What a compositor offers under a name, if it is of use.
    pub fn of(interface: &str) -> (r: Option<Self>)
        ensures
            match r {
                Some(global) => interface@ == global.text(),
                None => forall|global: Global| interface@ != #[trigger] global.text(),
            },
    {
        if same(interface, "ext_idle_notifier_v1") {
            Some(Global::IdleNotifier)
        } else if same(interface, "wl_seat") {
            Some(Global::Seat)
        } else if same(interface, "zwlr_output_power_manager_v1") {
            Some(Global::OutputPower)
        } else if same(interface, "org_kde_kwin_dpms_manager") {
            Some(Global::Dpms)
        } else if same(interface, "wl_output") {
            Some(Global::Output)
        } else {
            None
        }
    }

    /// The version to use, by the one that is offered.
    pub fn version(self, offered: u32) -> (r: u32)
        ensures
            r == (if offered < self.newest() {
                offered
            } else {
                self.newest()
            }),
    {
        let newest: u32 = match self {
            Global::IdleNotifier => 1,
            Global::Seat => 7,
            Global::OutputPower => 1,
            Global::Dpms => 1,
            Global::Output => 4,
        };
        if offered < newest {
            offered
        } else {
            newest
        }
    }
}

/// How a panel can be darkened.
#[derive(Clone, Copy, PartialEq, Eq, Debug, Structural)]
pub enum BlankVia {
    /// Not at all.
    Nothing,
    /// By the protocol of wlroots.
    WlrOutputPower,
    /// By the protocol of KWin.
    KdeDpms,
}

impl BlankVia {
    /// What it is called.
    pub open spec fn text(self) -> Seq<char> {
        match self {
            BlankVia::Nothing => "no blanking protocol"@,
            BlankVia::WlrOutputPower => "wlr-output-power-management-v1"@,
            BlankVia::KdeDpms => "org_kde_kwin_dpms"@,
        }
    }

    /// What it is called.
    pub fn name(self) -> (r: &'static str)
        ensures
            r@ == self.text(),
    {
        match self {
            BlankVia::Nothing => "no blanking protocol",
            BlankVia::WlrOutputPower => "wlr-output-power-management-v1",
            BlankVia::KdeDpms => "org_kde_kwin_dpms",
        }
    }

    /// Which protocol to try, by which there are and by how many panels: that of wlroots before that
    /// of KWin, and none without a panel.
    pub fn to_try(has_power: bool, has_dpms: bool, outputs: usize) -> (r: Self)
        ensures
            r == (if outputs == 0 {
                BlankVia::Nothing
            } else if has_power {
                BlankVia::WlrOutputPower
            } else if has_dpms {
                BlankVia::KdeDpms
            } else {
                BlankVia::Nothing
            }),
    {
        if outputs == 0 {
            BlankVia::Nothing
        } else if has_power {
            BlankVia::WlrOutputPower
        } else if has_dpms {
            BlankVia::KdeDpms
        } else {
            BlankVia::Nothing
        }
    }

    /// Which protocol to use, once it was tried: that of KWin only where a panel supports it.
    pub fn settled(self, dpms_supported: bool) -> (r: Self)
        ensures
            r == (if self == BlankVia::KdeDpms && !dpms_supported {
                BlankVia::Nothing
            } else {
                self
            }),
    {
        match self {
            BlankVia::KdeDpms => if dpms_supported {
                BlankVia::KdeDpms
            } else {
                BlankVia::Nothing
            },
            other => other,
        }
    }

    /// Whether the panel can be darkened.
    pub fn can_blank(self) -> (r: bool)
        ensures
            r == (self != BlankVia::Nothing),
    {
        match self {
            BlankVia::Nothing => false,
            _ => true,
        }
    }
}

/// How long nobody has used a session, by its compositor: whether it is gone, and how long ago it
/// said that nobody does. It only says so after a while, which counts too.
pub open spec fn notified(lost: bool, since: Option<Duration>) -> Idle {
    if lost {
        Idle::Unknown
    } else {
        match since {
            Some(d) => Idle::For(
                Duration {
                    nanos: if d.nanos + 10_000_000_000 <= u128::MAX {
                        (d.nanos + 10_000_000_000) as u128
                    } else {
                        u128::MAX
                    },
                },
            ),
            None => Idle::For(Duration { nanos: 0 }),
        }
    }
}

/// How long nobody has used a session, by its compositor.
pub fn wayland_idle(lost: bool, since: Option<Duration>) -> (r: Idle)
    ensures
        r == notified(lost, since),
{
    if lost {
        return Idle::Unknown;
    }
    match since {
        Some(d) => Idle::For(
            Duration {
                nanos: d.nanos.saturating_add(Duration::from_secs(NOTIFY_TIMEOUT_SECS).nanos),
            },
        ),
        None => Idle::For(Duration { nanos: 0 }),
    }
}

/// How long nobody has used a session, by its X server: the milliseconds since the last input, if it
/// answers.
pub fn x11_idle(millis: Option<u32>) -> (r: Idle)
    ensures
        r == (match millis {
            Some(ms) => Idle::For(Duration { nanos: (ms * 1_000_000) as u128 }),
            None => Idle::Unknown,
        }),
{
    match millis {
        Some(ms) => Idle::For(Duration::from_millis(ms as u64)),
        None => Idle::Unknown,
    }
}

/// How a session is watched and its panel darkened, in words.
pub fn describe_wayland(compositor: &str, via: BlankVia) -> (r: String)
    ensures
        r@ == "wayland ("@ + compositor@ + "), ext-idle-notify-v1, "@ + via.text(),
{
    let mut out = "wayland (".to_owned();
    out.append(compositor);
    out.append("), ext-idle-notify-v1, ");
    out.append(via.name());
    out
}

/// How a session is watched and its panel darkened, in words.
pub fn describe_x11(can_blank: bool) -> (r: String)
    ensures
        r@ == "x11, MIT-SCREEN-SAVER"@ + (if can_blank {
            ", DPMS"@
        } else {
            ", no DPMS"@
        }),
{
    let mut out = "x11, MIT-SCREEN-SAVER".to_owned();
    if can_blank {
        out.append(", DPMS");
    } else {
        out.append(", no DPMS");
    }
    out
}

} // verus!
