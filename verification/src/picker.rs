//! Interface picker: the list the user picks a capture interface from, the
//! capture filter typed beside it, the per-interface traffic trend, and the
//! picker's key handling.

use vstd::prelude::*;
use std::collections::VecDeque;
use crate::dashboard_keys::DashboardState;
use crate::flow::{IpAddress, Rate};
use crate::ratesum::{decode, is_infinite, mag_of, sign_set, units};
use crate::rounding::{lemma_div_common_factor, pow2_u128};
use vstd::arithmetic::power2::{pow2, lemma2_to64, lemma_pow2_adds, lemma_pow2_pos, lemma_pow2_strictly_increases};
use vstd::arithmetic::div_mod::lemma_fundamental_div_mod_converse;
use crate::prefs::{Key, KeyPress, UiPrefs, is_interrupt};
use crate::text::{chars_of, is_space, is_space_char};
use crate::widgets::string_views;

verus! {

/// Probe samples kept per interface for its trend.
pub const TRAFFIC_HISTORY_LEN: usize = 32;

/// Zero samples pushed per idle probe report, so an idle trend drains
/// faster than a busy one fills.
pub const IDLE_DRAIN_ZEROS: usize = 4;

/// A network interface as the picker lists it.
#[derive(Debug)]
pub struct InterfaceInfo {
    pub name: String,
    pub ipv4: Option<IpAddress>,
    pub ipv6: Option<IpAddress>,
    /// The interface could carry traffic (up and connected); only active
    /// interfaces are probed.
    pub active: bool,
    /// Link flags, shown on the row's first line.
    pub link_status: String,
    /// Connection status, shown dimmed on the row's second line.
    pub connection_status: String,
}

/// State of the picker screen.
#[derive(Debug)]
pub struct PickerState {
    pub interfaces: Vec<InterfaceInfo>,
    pub selected: usize,
    /// Shown when opening a capture or listing interfaces failed.
    pub last_error: Option<String>,
    /// Capture filter expression; empty means none.
    pub filter: String,
    /// The filter input has keyboard focus.
    pub editing_filter: bool,
    pub show_help: bool,
}

impl Default for PickerState {
    fn default() -> (r: PickerState)
        ensures
            r.interfaces@ == Seq::<InterfaceInfo>::empty(),
            r.selected == 0,
            r.last_error is None,
            r.filter@ == Seq::<char>::empty(),
            !r.editing_filter,
            !r.show_help,
    {
        PickerState {
            interfaces: Vec::new(),
            selected: 0,
            last_error: None,
            filter: String::new(),
            editing_filter: false,
            show_help: false,
        }
    }
}

impl PickerState {
    /// Move the cursor down, stopping at the last interface.
    pub fn select_next(&mut self)
        ensures
            final(self).interfaces == old(self).interfaces,
            final(self).last_error == old(self).last_error,
            final(self).filter == old(self).filter,
            final(self).editing_filter == old(self).editing_filter,
            final(self).show_help == old(self).show_help,
            old(self).interfaces.len() == 0 ==> final(self).selected == old(self).selected,
            old(self).interfaces.len() > 0 ==> final(self).selected == (if old(self).selected + 1
                < old(self).interfaces.len() { old(self).selected + 1 } else { old(self).interfaces.len() - 1 }),
    {
        if self.interfaces.len() == 0 {
            return;
        }
        let last = self.interfaces.len() - 1;
        self.selected = if self.selected < last { self.selected + 1 } else { last };
    }

    /// Move the cursor up, stopping at the first interface.
    pub fn select_prev(&mut self)
        ensures
            final(self).interfaces == old(self).interfaces,
            final(self).last_error == old(self).last_error,
            final(self).filter == old(self).filter,
            final(self).editing_filter == old(self).editing_filter,
            final(self).show_help == old(self).show_help,
            final(self).selected == (if old(self).selected == 0 { 0 } else { old(self).selected - 1 }),
    {
        self.selected = self.selected.saturating_sub(1);
    }

    /// The interface under the cursor, if the cursor is on one.
    pub fn selected_iface(&self) -> (r: Option<&InterfaceInfo>)
        ensures
            self.selected < self.interfaces.len() ==> r == Some(&self.interfaces@[self.selected as int]),
            self.selected >= self.interfaces.len() ==> r is None,
    {
        if self.selected < self.interfaces.len() {
            Some(&self.interfaces[self.selected])
        } else {
            None
        }
    }
}

/// `s` without its leading whitespace.
pub open spec fn trim_start(s: Seq<char>) -> Seq<char>
    decreases s.len(),
{
    if s.len() > 0 && is_space(s[0]) {
        trim_start(s.drop_first())
    } else {
        s
    }
}

/// `s` without its trailing whitespace.
pub open spec fn trim_end(s: Seq<char>) -> Seq<char>
    decreases s.len(),
{
    if s.len() > 0 && is_space(s.last()) {
        trim_end(s.drop_last())
    } else {
        s
    }
}

/// `s` without leading and trailing whitespace (what `str::trim` gives).
pub open spec fn trimmed(s: Seq<char>) -> Seq<char> {
    trim_end(trim_start(s))
}

/// `s` without leading and trailing whitespace.
pub fn trim_text(s: &str) -> (r: String)
    ensures
        r@ == trimmed(s@),
{
    let cs = chars_of(s);
    let n = cs.len();
    let mut a: usize = 0;
    proof {
        assert(s@.skip(0) =~= s@);
    }
    while a < n && is_space_char(cs[a])
        invariant
            cs@ == s@,
            n == cs.len(),
            a <= n,
            trim_start(s@) == trim_start(s@.skip(a as int)),
        decreases n - a,
    {
        proof {
            assert(s@.skip(a as int).drop_first() =~= s@.skip(a + 1));
        }
        a = a + 1;
    }
    proof {
        assert(trim_start(s@.skip(a as int)) == s@.skip(a as int));
    }
    let mut b: usize = n;
    while b > a && is_space_char(cs[b - 1])
        invariant
            cs@ == s@,
            n == cs.len(),
            a <= b <= n,
            trimmed(s@) == trim_end(s@.subrange(a as int, b as int)),
        decreases b,
    {
        proof {
            assert(s@.subrange(a as int, b as int).drop_last() =~= s@.subrange(a as int, b - 1));
        }
        b = b - 1;
    }
    let mut out = String::new();
    let mut i: usize = a;
    while i < b
        invariant
            cs@ == s@,
            n == cs.len(),
            a <= i <= b <= n,
            out@ == s@.subrange(a as int, i as int),
        decreases b - i,
    {
        proof {
            assert(s@.subrange(a as int, i + 1) =~= s@.subrange(a as int, i as int).push(s@[i as int]));
        }
        out.push(cs[i]);
        i = i + 1;
    }
    proof {
        assert(s@.skip(a as int) =~= s@.subrange(a as int, n as int));
    }
    out
}

/// `s` without its last character (unchanged when empty).
fn drop_last_char(s: &String) -> (r: String)
    ensures
        s@.len() == 0 ==> r@ == s@,
        s@.len() > 0 ==> r@ == s@.drop_last(),
{
    let cs = chars_of(s.as_str());
    let mut out = String::new();
    if cs.len() == 0 {
        return out;
    }
    let keep = cs.len() - 1;
    let mut i: usize = 0;
    while i < keep
        invariant
            cs@ == s@,
            keep == cs.len() - 1,
            i <= keep,
            out@ == s@.take(i as int),
        decreases keep - i,
    {
        proof {
            assert(s@.take(i + 1) =~= s@.take(i as int).push(s@[i as int]));
        }
        out.push(cs[i]);
        i = i + 1;
    }
    proof {
        assert(s@.take(keep as int) =~= s@.drop_last());
    }
    out
}

/// The outside step a picker key press asks of the app.
#[derive(Debug)]
pub enum PickerAction {
    Stay,
    Quit,
    /// Tear down the probes and list the interfaces again.
    Rescan,
    /// Open a capture on the named interface with the given filter (none
    /// when the trimmed filter is empty); report back with
    /// `capture_started` or `capture_failed`.
    StartCapture { iface: String, filter: Option<String> },
}

/// What the picker asks for when the user opens the selected interface: a
/// capture on it with the trimmed filter, or nothing without a selection.
pub open spec fn open_request(p: PickerState) -> Option<(Seq<char>, Option<Seq<char>>)> {
    if p.selected < p.interfaces.len() {
        let t = trimmed(p.filter@);
        Some((p.interfaces@[p.selected as int].name@, if t.len() == 0 { None } else { Some(t) }))
    } else {
        None
    }
}

/// The request an action makes, as text.
pub open spec fn action_request(a: PickerAction) -> Option<(Seq<char>, Option<Seq<char>>)> {
    match a {
        PickerAction::StartCapture { iface, filter } => Some((iface@, match filter {
            Some(f) => Some(f@),
            None => None,
        })),
        _ => None,
    }
}

fn open_selected_interface(picker: &PickerState) -> (a: PickerAction)
    ensures
        match open_request(*picker) {
            Some(req) => action_request(a) == Some(req),
            None => a is Stay,
        },
{
    match picker.selected_iface() {
        None => PickerAction::Stay,
        Some(i) => {
            let t = trim_text(picker.filter.as_str());
            let iface = i.name.clone();
            if t.unicode_len() == 0 {
                PickerAction::StartCapture { iface, filter: None }
            } else {
                PickerAction::StartCapture { iface, filter: Some(t) }
            }
        },
    }
}

/// Everything of the picker but its filter text and its selection-related
/// flags is left as it was.
pub open spec fn same_list(a: PickerState, b: PickerState) -> bool {
    &&& a.interfaces == b.interfaces
    &&& a.selected == b.selected
}

/// Handle one key press on the picker. While the filter is being edited,
/// printable keys (without Ctrl or Alt) type into it, Backspace deletes,
/// Esc stops editing and Enter stops editing and opens the selected
/// interface; otherwise `?` toggles help, Esc closes it, `j`/`k` and the
/// arrows move, `f` or `/` start editing (clearing a stale error), `r`
/// rescans, Enter opens the selected interface, and `q` quits.
pub fn picker_key(picker: &mut PickerState, k: KeyPress) -> (a: PickerAction)
    ensures
        k.is_interrupt() ==> a is Stay && *final(picker) == *old(picker),
        !k.is_interrupt() && k.is_char('q') && !old(picker).editing_filter ==> a is Quit && *final(picker)
            == *old(picker),
        // Editing the filter.
        !k.is_interrupt() && old(picker).editing_filter ==> same_list(*final(picker), *old(picker))
            && final(picker).last_error == old(picker).last_error && final(picker).show_help == old(
            picker,
        ).show_help && match k.key {
            Key::Esc => !final(picker).editing_filter && final(picker).filter == old(picker).filter && a is Stay,
            Key::Backspace => final(picker).editing_filter && (if old(picker).filter@.len() == 0 {
                final(picker).filter@ == old(picker).filter@
            } else {
                final(picker).filter@ == old(picker).filter@.drop_last()
            }) && a is Stay,
            Key::Enter => !final(picker).editing_filter && final(picker).filter == old(picker).filter && match open_request(
                *old(picker),
            ) {
                Some(req) => action_request(a) == Some(req),
                None => a is Stay,
            },
            Key::Char(c) => final(picker).editing_filter && a is Stay && if !k.ctrl && !k.alt {
                final(picker).filter@ == old(picker).filter@.push(c)
            } else {
                final(picker).filter == old(picker).filter
            },
            _ => *final(picker) == *old(picker) && a is Stay,
        },
        // Browsing the list.
        !k.is_interrupt() && !k.is_char('q') && !old(picker).editing_filter ==> match k.key {
            Key::Char('?') => *final(picker) == (PickerState { show_help: !old(picker).show_help, ..*old(picker) })
                && a is Stay,
            Key::Esc => *final(picker) == (PickerState { show_help: false, ..*old(picker) }) && a is Stay,
            Key::Down | Key::Char('j') => *final(picker) == (PickerState {
                selected: if old(picker).interfaces.len() == 0 {
                    old(picker).selected
                } else if old(picker).selected + 1 < old(picker).interfaces.len() {
                    (old(picker).selected + 1) as usize
                } else {
                    (old(picker).interfaces.len() - 1) as usize
                },
                ..*old(picker)
            }) && a is Stay,
            Key::Up | Key::Char('k') => *final(picker) == (PickerState {
                selected: if old(picker).selected == 0 { 0 } else { (old(picker).selected - 1) as usize },
                ..*old(picker)
            }) && a is Stay,
            Key::Char('f') | Key::Char('/') => *final(picker) == (PickerState {
                editing_filter: true,
                last_error: None,
                ..*old(picker)
            }) && a is Stay,
            Key::Char('r') => final(picker).interfaces@.len() == 0 && *final(picker) == (PickerState {
                interfaces: final(picker).interfaces,
                last_error: None,
                ..*old(picker)
            }) && a is Rescan,
            Key::Enter => *final(picker) == *old(picker) && match open_request(*old(picker)) {
                Some(req) => action_request(a) == Some(req),
                None => a is Stay,
            },
            _ => *final(picker) == *old(picker) && a is Stay,
        },
{
    if is_interrupt(&k) {
        return PickerAction::Stay;
    }
    if k.key == Key::Char('q') && !picker.editing_filter {
        return PickerAction::Quit;
    }
    if picker.editing_filter {
        match k.key {
            Key::Esc => {
                picker.editing_filter = false;
                PickerAction::Stay
            },
            Key::Backspace => {
                picker.filter = drop_last_char(&picker.filter);
                PickerAction::Stay
            },
            Key::Enter => {
                picker.editing_filter = false;
                open_selected_interface(picker)
            },
            Key::Char(c) => {
                if !k.ctrl && !k.alt {
                    picker.filter.push(c);
                }
                PickerAction::Stay
            },
            _ => PickerAction::Stay,
        }
    } else {
        match k.key {
            Key::Char('?') => {
                picker.show_help = !picker.show_help;
                PickerAction::Stay
            },
            Key::Esc => {
                // Closes help; the picker has no screen to go back to.
                picker.show_help = false;
                PickerAction::Stay
            },
            Key::Down | Key::Char('j') => {
                picker.select_next();
                PickerAction::Stay
            },
            Key::Up | Key::Char('k') => {
                picker.select_prev();
                PickerAction::Stay
            },
            Key::Char('f') | Key::Char('/') => {
                picker.editing_filter = true;
                picker.last_error = None;
                PickerAction::Stay
            },
            Key::Char('r') => {
                picker.interfaces = Vec::new();
                picker.last_error = None;
                PickerAction::Rescan
            },
            Key::Enter => open_selected_interface(picker),
            _ => PickerAction::Stay,
        }
    }
}

/// A capture opened on `iface` with the trimmed `filter`: the dashboard
/// binds to it, starting live at the top with help closed, and the picker's
/// error clears.
pub fn capture_started(
    state: &mut DashboardState,
    prefs: &mut UiPrefs,
    picker: &mut PickerState,
    iface: String,
    filter: String,
)
    ensures
        final(state).selected_interface == Some(iface),
        final(state).selected == 0,
        !final(state).paused,
        final(state).frozen is None,
        final(state).filter == filter,
        final(state).show_details == old(state).show_details,
        final(state).details_flow == old(state).details_flow,
        final(state).sort_column == old(state).sort_column,
        final(state).sort_direction == old(state).sort_direction,
        *final(prefs) == (UiPrefs { show_help: false, ..*old(prefs) }),
        *final(picker) == (PickerState { last_error: None, ..*old(picker) }),
{
    state.selected_interface = Some(iface);
    state.selected = 0;
    prefs.show_help = false;
    state.paused = false;
    state.frozen = None;
    state.filter = filter;
    picker.last_error = None;
}

/// Opening a capture failed with `message`: the picker shows it.
pub fn capture_failed(picker: &mut PickerState, message: String)
    ensures
        *final(picker) == (PickerState { last_error: Some(message), ..*old(picker) }),
{
    picker.last_error = Some(message);
}

/// The trend sample of a probe's packet rate: the rate, never below zero,
/// rounded to the nearest whole number (halves away from zero) and capped
/// at the largest `u64`; a NaN counts as zero.
pub open spec fn sample_of(pps: Rate) -> nat {
    if mag_of(pps) > 0x7f80_0000 || sign_set(pps) {
        0
    } else if is_infinite(pps) {
        u64::MAX as nat
    } else {
        let v = (units(pps) + pow2(148)) / pow2(149);
        if v > u64::MAX { u64::MAX as nat } else { v }
    }
}

/// The trend sample of a probe's packet rate (see `sample_of`).
pub fn probe_sample(pps: Rate) -> (r: u64)
    ensures
        r == sample_of(pps),
{
    let m: u32 = pps.bits % 0x8000_0000;
    if m > 0x7f80_0000 || pps.bits >= 0x8000_0000 {
        return 0;
    }
    if m == 0x7f80_0000 {
        return u64::MAX;
    }
    let (sig, sc) = decode(pps);
    let ghost u: nat = (sig as nat) * pow2(sc as nat);
    proof {
        lemma2_to64();
        lemma_pow2_adds(148, 1);
        lemma_pow2_pos(148);
    }
    if sc >= 149 {
        let e = sc - 149;
        proof {
            lemma_pow2_adds(149, e as nat);
            lemma_pow2_pos(e as nat);
            // u + 2^148 = (sig * 2^e) * 2^149 + 2^148, with 2^148 < 2^149.
            assert(u == ((sig as nat) * pow2(e as nat)) * pow2(149)) by (nonlinear_arith)
                requires u == (sig as nat) * pow2(sc as nat), pow2(sc as nat) == pow2(149) * pow2(e as nat);
            lemma_fundamental_div_mod_converse((u + pow2(148)) as int, pow2(149) as int,
                ((sig as nat) * pow2(e as nat)) as int, pow2(148) as int);
        }
        if e >= 64 {
            proof {
                if e > 64 {
                    lemma_pow2_strictly_increases(64, e as nat);
                }
                assert((sig as nat) * pow2(e as nat) >= pow2(e as nat)) by (nonlinear_arith)
                    requires sig >= 1;
            }
            return u64::MAX;
        }
        let p = pow2_u128(e as u32);
        proof {
            lemma_pow2_strictly_increases(e as nat, 64);
            assert((sig as nat) * pow2(e as nat) < 0x1_0000_0000_0000_0000_0000_0000_0000_0000) by (nonlinear_arith)
                requires sig < 0x100_0000, pow2(e as nat) < pow2(64), pow2(64) == 0x1_0000_0000_0000_0000;
        }
        let v: u128 = (sig as u128) * p;
        if v > u64::MAX as u128 { u64::MAX } else { v as u64 }
    } else {
        let j = 149 - sc;
        proof {
            lemma_pow2_adds(sc as nat, j as nat);
            lemma_pow2_pos(sc as nat);
            lemma_pow2_pos(j as nat);
            lemma_pow2_adds(sc as nat, (j - 1) as nat);
            lemma_pow2_adds(1, (j - 1) as nat);
            // Dividing numerator and denominator by 2^sc.
            let h = pow2((j - 1) as nat);
            assert(u + pow2(148) == ((sig as nat) + h) * pow2(sc as nat)) by (nonlinear_arith)
                requires u == (sig as nat) * pow2(sc as nat), pow2(148) == pow2(sc as nat) * h;
            assert(pow2(149) == pow2(j as nat) * pow2(sc as nat)) by (nonlinear_arith)
                requires pow2(149) == pow2(sc as nat) * pow2(j as nat);
            lemma_div_common_factor((sig as nat) + h, pow2(j as nat), pow2(sc as nat));
        }
        if j >= 26 {
            proof {
                if j > 26 {
                    lemma_pow2_strictly_increases(25, (j - 1) as nat);
                }
                lemma_pow2_adds(1, 25);
                assert(((sig as nat) + pow2((j - 1) as nat)) < pow2(j as nat)) by (nonlinear_arith)
                    requires sig < 0x100_0000, pow2((j - 1) as nat) >= pow2(25), pow2(25) == 0x200_0000,
                        pow2(j as nat) == 2 * pow2((j - 1) as nat);
                lemma_fundamental_div_mod_converse(((sig as nat) + pow2((j - 1) as nat)) as int, pow2(j as nat) as int,
                    0, ((sig as nat) + pow2((j - 1) as nat)) as int);
            }
            return 0;
        }
        let half = pow2_u128((j - 1) as u32);
        let den = pow2_u128(j as u32);
        proof {
            lemma_pow2_strictly_increases((j - 1) as nat, 25);
        }
        ((sig as u128 + half) / den) as u64
    }
}

/// Record one probe sample in an interface's trend: an idle sample (zero)
/// is pushed `IDLE_DRAIN_ZEROS` times, any other once; the trend keeps the
/// newest `TRAFFIC_HISTORY_LEN` samples, oldest first.
pub open spec fn recorded(buf: Seq<u64>, sample: u64) -> Seq<u64> {
    let k: nat = if sample == 0 { IDLE_DRAIN_ZEROS as nat } else { 1 };
    let all = buf + Seq::new(k, |_i: int| sample);
    if all.len() > TRAFFIC_HISTORY_LEN { all.skip(all.len() - TRAFFIC_HISTORY_LEN) } else { all }
}

/// Push one probe sample into an interface's trend (see `recorded`).
pub fn record_sample(buf: &mut VecDeque<u64>, sample: u64)
    requires
        old(buf)@.len() <= TRAFFIC_HISTORY_LEN,
    ensures
        final(buf)@ == recorded(old(buf)@, sample),
        final(buf)@.len() <= TRAFFIC_HISTORY_LEN,
{
    let push_count: usize = if sample == 0 { IDLE_DRAIN_ZEROS } else { 1 };
    let ghost start = buf@;
    let ghost k: nat = push_count as nat;
    let mut i: usize = 0;
    while i < push_count
        invariant
            push_count == k,
            k == (if sample == 0 { IDLE_DRAIN_ZEROS as nat } else { 1nat }),
            i <= push_count,
            buf@.len() <= TRAFFIC_HISTORY_LEN,
            ({
                let all = start + Seq::new(i as nat, |_j: int| sample);
                buf@ == (if all.len() > TRAFFIC_HISTORY_LEN { all.skip(all.len() - TRAFFIC_HISTORY_LEN) } else { all })
            }),
        decreases push_count - i,
    {
        let ghost before = buf@;
        let ghost all0 = start + Seq::new(i as nat, |_j: int| sample);
        let ghost all1 = start + Seq::new((i + 1) as nat, |_j: int| sample);
        proof {
            assert(all1 =~= all0.push(sample));
        }
        if buf.len() == TRAFFIC_HISTORY_LEN {
            buf.pop_front();
        }
        buf.push_back(sample);
        proof {
            if all0.len() > TRAFFIC_HISTORY_LEN {
                assert(buf@ =~= all1.skip(all1.len() - TRAFFIC_HISTORY_LEN));
            } else if all0.len() == TRAFFIC_HISTORY_LEN {
                assert(buf@ =~= all1.skip(all1.len() - TRAFFIC_HISTORY_LEN));
            } else {
                assert(buf@ =~= all1);
            }
        }
        i = i + 1;
    }
}

/// Whether two texts are equal.
pub fn same_text(a: &str, b: &str) -> (r: bool)
    ensures
        r == (a@ == b@),
{
    let x = chars_of(a);
    let y = chars_of(b);
    if x.len() != y.len() {
        return false;
    }
    let mut i: usize = 0;
    while i < x.len()
        invariant
            x@ == a@,
            y@ == b@,
            x.len() == y.len(),
            i <= x.len(),
            forall|j: int| 0 <= j < i ==> x@[j] == y@[j],
        decreases x.len() - i,
    {
        if x[i] != y[i] {
            return false;
        }
        i = i + 1;
    }
    proof {
        assert(a@ =~= b@);
    }
    true
}

/// The names of the active interfaces among the first `n`.
pub open spec fn active_names(ifs: Seq<InterfaceInfo>, n: int) -> Set<Seq<char>>
    decreases n,
{
    if n <= 0 {
        Set::empty()
    } else if ifs[n - 1].active {
        active_names(ifs, n - 1).insert(ifs[n - 1].name@)
    } else {
        active_names(ifs, n - 1)
    }
}

/// The probes to stop: those running for an interface that is no longer
/// active, in the order they run.
pub open spec fn probes_to_stop(running: Seq<Seq<char>>, active: Set<Seq<char>>) -> Seq<Seq<char>>
    decreases running.len(),
{
    if running.len() == 0 {
        Seq::empty()
    } else {
        let prev = probes_to_stop(running.drop_last(), active);
        if active.contains(running.last()) { prev } else { prev.push(running.last()) }
    }
}

/// The probes to start among the first `n` interfaces: one per active
/// interface without a running probe, each name once, in list order.
pub open spec fn probes_to_start(ifs: Seq<InterfaceInfo>, running: Seq<Seq<char>>, n: int) -> Seq<Seq<char>>
    decreases n,
{
    if n <= 0 {
        Seq::empty()
    } else {
        let prev = probes_to_start(ifs, running, n - 1);
        let name = ifs[n - 1].name@;
        if ifs[n - 1].active && !running.contains(name) && !prev.contains(name) { prev.push(name) } else { prev }
    }
}

fn contains_text(v: &Vec<String>, s: &str) -> (r: bool)
    ensures
        r == string_views(v@).contains(s@),
{
    let mut j: usize = 0;
    while j < v.len()
        invariant
            j <= v.len(),
            forall|t: int| 0 <= t < j ==> v@[t]@ != s@,
        decreases v.len() - j,
    {
        if same_text(v[j].as_str(), s) {
            proof {
                assert(string_views(v@)[j as int] == s@);
            }
            return true;
        }
        j = j + 1;
    }
    proof {
        if string_views(v@).contains(s@) {
            let t = choose|t: int| 0 <= t < string_views(v@).len() && string_views(v@)[t] == s@;
            assert(v@[t]@ == s@);
        }
    }
    false
}

proof fn lemma_active_names_member(ifs: Seq<InterfaceInfo>, n: int, name: Seq<char>)
    requires
        0 <= n <= ifs.len(),
    ensures
        active_names(ifs, n).contains(name) <==> exists|j: int| 0 <= j < n && ifs[j].active && ifs[j].name@ == name,
    decreases n,
{
    if n > 0 {
        lemma_active_names_member(ifs, n - 1, name);
        if active_names(ifs, n).contains(name) && !(ifs[n - 1].active && ifs[n - 1].name@ == name) {
            let j = choose|j: int| 0 <= j < n - 1 && ifs[j].active && ifs[j].name@ == name;
            assert(0 <= j < n && ifs[j].active && ifs[j].name@ == name);
        }
    }
}

proof fn lemma_stop_members(running: Seq<Seq<char>>, active: Set<Seq<char>>, name: Seq<char>)
    ensures
        probes_to_stop(running, active).contains(name) <==> running.contains(name) && !active.contains(name),
    decreases running.len(),
{
    if running.len() > 0 {
        let prev = running.drop_last();
        lemma_stop_members(prev, active, name);
        let s = probes_to_stop(running, active);
        let ps = probes_to_stop(prev, active);
        if running.contains(name) && !active.contains(name) {
            let j = choose|j: int| 0 <= j < running.len() && running[j] == name;
            if j < running.len() - 1 {
                assert(prev[j] == name);
                let k = choose|k: int| 0 <= k < ps.len() && ps[k] == name;
                if !active.contains(running.last()) {
                    assert(s[k] == name);
                }
            } else {
                assert(s[s.len() - 1] == name);
            }
        }
        if s.contains(name) {
            let k = choose|k: int| 0 <= k < s.len() && s[k] == name;
            if k < ps.len() {
                assert(ps[k] == name);
                let j = choose|j: int| 0 <= j < prev.len() && prev[j] == name;
                assert(running[j] == name);
            } else {
                assert(running[running.len() - 1] == name);
            }
        }
    }
}

proof fn lemma_start_members(ifs: Seq<InterfaceInfo>, running: Seq<Seq<char>>, n: int, name: Seq<char>)
    requires
        0 <= n <= ifs.len(),
    ensures
        probes_to_start(ifs, running, n).contains(name) ==> !running.contains(name)
            && active_names(ifs, n).contains(name),
    decreases n,
{
    if n > 0 {
        lemma_start_members(ifs, running, n - 1, name);
        let s = probes_to_start(ifs, running, n);
        let ps = probes_to_start(ifs, running, n - 1);
        if s.contains(name) {
            let k = choose|k: int| 0 <= k < s.len() && s[k] == name;
            if k < ps.len() {
                assert(ps[k] == name);
            }
        }
    }
}

/// Reconciling the probes never restarts one whose interface is still
/// active: such a probe is neither stopped nor started again. A probe stops
/// only when its interface is no longer active, and one starts only for an
/// active interface that has none running.
pub proof fn lemma_probe_plan_keeps_running(ifs: Seq<InterfaceInfo>, running: Seq<Seq<char>>, name: Seq<char>)
    ensures
        probes_to_stop(running, active_names(ifs, ifs.len() as int)).contains(name) <==> running.contains(name)
            && !active_names(ifs, ifs.len() as int).contains(name),
        probes_to_start(ifs, running, ifs.len() as int).contains(name) ==> !running.contains(name)
            && active_names(ifs, ifs.len() as int).contains(name),
{
    lemma_stop_members(running, active_names(ifs, ifs.len() as int), name);
    lemma_start_members(ifs, running, ifs.len() as int, name);
}

fn is_active_name(ifs: &Vec<InterfaceInfo>, s: &str) -> (r: bool)
    ensures
        r == active_names(ifs@, ifs@.len() as int).contains(s@),
{
    proof {
        lemma_active_names_member(ifs@, ifs@.len() as int, s@);
    }
    let mut j: usize = 0;
    while j < ifs.len()
        invariant
            j <= ifs.len(),
            forall|t: int| 0 <= t < j ==> !(ifs@[t].active && ifs@[t].name@ == s@),
            active_names(ifs@, ifs@.len() as int).contains(s@) <==> exists|t: int|
                0 <= t < ifs@.len() && ifs@[t].active && ifs@[t].name@ == s@,
        decreases ifs.len() - j,
    {
        if ifs[j].active && same_text(ifs[j].name.as_str(), s) {
            return true;
        }
        j = j + 1;
    }
    false
}

/// Reconcile the running probes with the interface list (nothing while an
/// error is shown): the probes to stop (see `probes_to_stop`) and the
/// interfaces to start one for (see `probes_to_start`).
pub fn probe_plan(picker: &PickerState, running: &Vec<String>) -> (r: (Vec<String>, Vec<String>))
    ensures
        picker.last_error is Some ==> r.0@.len() == 0 && r.1@.len() == 0,
        picker.last_error is None ==> string_views(r.0@) == probes_to_stop(
            string_views(running@),
            active_names(picker.interfaces@, picker.interfaces@.len() as int),
        ) && string_views(r.1@) == probes_to_start(
            picker.interfaces@,
            string_views(running@),
            picker.interfaces@.len() as int,
        ),
{
    let mut stop: Vec<String> = Vec::new();
    let mut start: Vec<String> = Vec::new();
    if picker.last_error.is_some() {
        return (stop, start);
    }
    let ifs = &picker.interfaces;
    let ghost active = active_names(ifs@, ifs@.len() as int);
    let mut i: usize = 0;
    while i < running.len()
        invariant
            i <= running.len(),
            active == active_names(ifs@, ifs@.len() as int),
            string_views(stop@) == probes_to_stop(string_views(running@.take(i as int)), active),
        decreases running.len() - i,
    {
        proof {
            assert(string_views(running@.take(i + 1)).drop_last() =~= string_views(running@.take(i as int)));
            assert(string_views(running@.take(i + 1)).last() == running@[i as int]@);
        }
        if !is_active_name(ifs, running[i].as_str()) {
            let ghost before = stop@;
            stop.push(running[i].clone());
            proof {
                assert(string_views(stop@) =~= string_views(before).push(running@[i as int]@));
            }
        }
        i = i + 1;
    }
    proof {
        assert(running@.take(running.len() as int) =~= running@);
    }
    let mut k: usize = 0;
    while k < ifs.len()
        invariant
            k <= ifs.len(),
            string_views(start@) == probes_to_start(ifs@, string_views(running@), k as int),
        decreases ifs.len() - k,
    {
        let name = ifs[k].name.as_str();
        if ifs[k].active && !contains_text(running, name) && !contains_text(&start, name) {
            let ghost before = start@;
            start.push(ifs[k].name.clone());
            proof {
                assert(string_views(start@) =~= string_views(before).push(ifs@[k as int].name@));
            }
        }
        k = k + 1;
    }
    (stop, start)
}

} // verus!
