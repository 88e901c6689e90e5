//! The display: whether one is connected, how large it is, and how large to draw on it.

use vstd::prelude::*;

use crate::effects::{option_view, owned_view};
use crate::number::{
    decimal, divide_half_even, law_written_number_is_read_back, lemma_decimal, lemma_round_half_even,
    parse_u32, parsed, round_half_even,
};
use crate::split::{lines, lines_of};
use crate::text::{
    after, before, find, is_digit, law_found_is_the_first, occurs_at, position_of, same, starts_with,
    trim, trim_back, trim_end_of, trimmed, CharClass,
};
use crate::text_laws::{are_positions, law_text_is_found, law_trimming_gives_back, lemma_picked};

verus! {

/// The height in pixels for which the pages are drawn.
pub const DESIGN_HEIGHT: u32 = 720;

/// The width and the height in a mode such as `1920x1080` or `1920x1080i`.
pub open spec fn mode_size(s: Seq<char>) -> Option<(nat, nat)> {
    let t = trimmed(s);
    match find(t, "x"@) {
        Some(i) => {
            let w = parsed(t.take(i as int), u32::MAX as nat);
            let h = parsed(trim_back(t.skip(i + 1), CharClass::NonDigit), u32::MAX as nat);
            match (w, h) {
                (Some(w), Some(h)) => Some((w, h)),
                _ => None,
            }
        },
        None => None,
    }
}

/// The contents of an optional size.
pub open spec fn size_view(o: Option<(u32, u32)>) -> Option<(nat, nat)> {
    match o {
        Some(s) => Some((s.0 as nat, s.1 as nat)),
        None => None,
    }
}

/// Reads a mode such as `1920x1080` or `1920x1080i`. What is behind the last digit is
/// dropped.
pub fn parse_drm_mode(s: &str) -> (r: Option<(u32, u32)>)
    ensures
        size_view(r) == mode_size(s@),
{
    proof {
        reveal_strlit("x");
    }
    let t = trim(s);
    match position_of(t, "x") {
        Some(i) => {
            let w = parse_u32(before(t, i));
            let h = parse_u32(trim_end_of(after(t, i + 1), CharClass::NonDigit));
            match (w, h) {
                (Some(w), Some(h)) => Some((w, h)),
                _ => None,
            }
        },
        None => None,
    }
}

/// A connector of a graphics card, as far as what is told of it could be read.
#[derive(Debug)]
pub struct Connector {
    /// Its name, such as `card0-HDMI-A-1`.
    pub name: String,
    /// Whether something is connected.
    pub status: Option<String>,
    /// The modes of what is connected, one in each line, the preferred one first.
    pub modes: Option<String>,
}

/// The contents of a `Connector`.
pub struct ConnectorView {
    pub name: Seq<char>,
    pub status: Option<Seq<char>>,
    pub modes: Option<Seq<char>>,
}

impl View for Connector {
    type V = ConnectorView;

    open spec fn view(&self) -> ConnectorView {
        ConnectorView {
            name: self.name@,
            status: owned_view(self.status),
            modes: owned_view(self.modes),
        }
    }
}

/// The name is that of a connector: `card`, and a hyphen somewhere.
pub open spec fn is_connector_name(name: Seq<char>) -> bool {
    "card"@.is_prefix_of(name) && find(name, "-"@) is Some
}

/// The size of the display that is connected, in its preferred mode.
pub open spec fn display_size(c: ConnectorView) -> Option<(nat, nat)> {
    if !is_connector_name(c.name) {
        None
    } else {
        match (c.status, c.modes) {
            (Some(status), Some(modes)) => if trimmed(status) == "connected"@ && lines(
                modes,
            ).len() > 0 {
                mode_size(lines(modes)[0])
            } else {
                None
            },
            _ => None,
        }
    }
}

/// The sizes of the displays that are connected.
pub open spec fn display_sizes(all: Seq<ConnectorView>) -> Seq<(nat, nat)> {
    all.filter_map(|c: ConnectorView| display_size(c))
}

/// The largest of some sizes, by their areas; the first of them where several are.
pub open spec fn largest(sizes: Seq<(nat, nat)>) -> Option<(nat, nat)>
    decreases sizes.len(),
{
    if sizes.len() == 0 {
        None
    } else {
        match largest(sizes.drop_last()) {
            Some(m) => if sizes.last().0 * sizes.last().1 > m.0 * m.1 {
                Some(sizes.last())
            } else {
                Some(m)
            },
            None => Some(sizes.last()),
        }
    }
}

/// A display is found if one is connected. None of those before it is as large, none behind
/// it is larger.
pub proof fn law_primary_display_is_the_largest(sizes: Seq<(nat, nat)>)
    ensures
        match largest(sizes) {
            Some(m) => exists|k: int| #[trigger]
                is_first_largest(sizes, k) && 0 <= k < sizes.len() && sizes[k] == m,
            None => sizes.len() == 0,
        },
    decreases sizes.len(),
{
    if sizes.len() > 0 {
        let rest = sizes.drop_last();
        law_primary_display_is_the_largest(rest);
        match largest(rest) {
            Some(m) => {
                let k = choose|k: int| #[trigger]
                    is_first_largest(rest, k) && 0 <= k < rest.len() && rest[k] == m;
                assert(forall|i: int| 0 <= i < rest.len() ==> #[trigger] area(rest, i) == area(sizes, i));
                if area(sizes, sizes.len() - 1) > m.0 * m.1 {
                    assert(is_first_largest(sizes, sizes.len() - 1)) by {
                        assert forall|i: int| 0 <= i < sizes.len() - 1 implies #[trigger] area(
                            sizes,
                            i,
                        ) < area(sizes, sizes.len() - 1) by {
                            assert(area(rest, i) <= area(rest, k));
                        }
                    }
                } else {
                    assert(is_first_largest(sizes, k)) by {
                        assert forall|i: int| 0 <= i < sizes.len() implies #[trigger] area(
                            sizes,
                            i,
                        ) <= area(sizes, k) && (i < k ==> area(sizes, i) < area(sizes, k)) by {
                            if i < rest.len() {
                                assert(area(rest, i) <= area(rest, k));
                            }
                        }
                    }
                }
            },
            None => {
                assert(is_first_largest(sizes, 0));
            },
        }
    }
}

/// The area of the size of number `i`.
pub open spec fn area(sizes: Seq<(nat, nat)>, i: int) -> nat {
    sizes[i].0 * sizes[i].1
}

/// No size is larger than that of number `k`, and none before it is as large.
pub open spec fn is_first_largest(sizes: Seq<(nat, nat)>, k: int) -> bool {
    forall|i: int|
        0 <= i < sizes.len() ==> #[trigger] area(sizes, i) <= area(sizes, k) && (i < k ==> area(
            sizes,
            i,
        ) < area(sizes, k))
}

/// A mode is read: the width up to the `x`, the height behind it, and nothing of what follows
/// the last digit or stands around.
pub proof fn law_mode_is_read(a: Seq<char>, w: nat, h: nat, tail: Seq<char>, b: Seq<char>)
    requires
        w <= u32::MAX,
        h <= u32::MAX,
        forall|i: int| 0 <= i < a.len() ==> CharClass::Whitespace.has(#[trigger] a[i]),
        forall|i: int| 0 <= i < b.len() ==> CharClass::Whitespace.has(#[trigger] b[i]),
        forall|i: int| 0 <= i < tail.len() ==> CharClass::NonDigit.has(#[trigger] tail[i]),
        tail.len() > 0 ==> !CharClass::Whitespace.has(tail.last()),
    ensures
        mode_size(a + (decimal(w) + "x"@ + decimal(h) + tail) + b) == Some((w, h)),
{
    reveal_strlit("x");
    lemma_decimal(w);
    lemma_decimal(h);
    let x = decimal(w);
    let y = decimal(h);
    let t = x + "x"@ + y + tail;
    assert(is_digit(x[0]));
    assert(is_digit(y[0]) && is_digit(y[y.len() - 1]));
    assert(t[0] == x[0]);
    assert(t.last() == (if tail.len() > 0 {
        tail.last()
    } else {
        y.last()
    }));
    law_trimming_gives_back(a, t, b, CharClass::Whitespace);
    assert(t =~= x + "x"@ + (y + tail));
    assert forall|j: int| 0 <= j < x.len() implies #[trigger] (x + "x"@ + (y + tail)).subrange(
        j,
        j + "x"@.len(),
    ) != "x"@ by {
        assert(is_digit(x[j]));
        assert((x + "x"@ + (y + tail)).subrange(j, j + 1)[0] == x[j]);
    }
    law_text_is_found(x, "x"@, y + tail);
    assert(t.take(x.len() as int) =~= x);
    assert(t.skip(x.len() as int + 1) =~= y + tail);
    law_trimming_gives_back(Seq::empty(), y, tail, CharClass::NonDigit);
    law_written_number_is_read_back(w, u32::MAX as nat);
    law_written_number_is_read_back(h, u32::MAX as nat);
}

/// A display counts exactly where its connector is called `card` and something with a hyphen,
/// its status is `connected`, and the first of its modes can be read: that is its size.
pub proof fn law_connected_displays_count(c: ConnectorView)
    ensures
        match display_size(c) {
            Some(size) => "card"@.is_prefix_of(c.name) && c.name.contains('-') && (c.status matches Some(
                s,
            ) && trimmed(s) == "connected"@) && (c.modes matches Some(m) && lines(m).len() > 0
                && mode_size(lines(m)[0]) == Some(size)),
            None => !("card"@.is_prefix_of(c.name) && c.name.contains('-') && (c.status matches Some(
                s,
            ) && trimmed(s) == "connected"@) && (c.modes matches Some(m) && lines(m).len() > 0
                && mode_size(lines(m)[0]) is Some)),
        },
{
    reveal_strlit("-");
    law_found_is_the_first(c.name, "-"@, 0);
    if c.name.contains('-') {
        let i = choose|i: int| 0 <= i < c.name.len() && c.name[i] == '-';
        assert(c.name.subrange(i, i + 1) =~= "-"@);
        assert(occurs_at(c.name, "-"@, i));
    }
    if let Some(i) = find(c.name, "-"@) {
        assert(c.name.subrange(i, i + 1)[0] == c.name[i]);
        assert(c.name[i] == '-');
    }
}

/// Every display that counts is among those that the largest is taken from.
pub proof fn law_every_display_is_measured(all: Seq<ConnectorView>) -> (at: Seq<int>)
    ensures
        are_positions(at, all.len()),
        at.len() == display_sizes(all).len(),
        forall|k: int|
            0 <= k < at.len() ==> display_size(all[#[trigger] at[k]]) == Some(display_sizes(all)[k]),
        forall|i: int|
            0 <= i < all.len() ==> (#[trigger] at.contains(i) <==> display_size(all[i]) is Some),
{
    lemma_picked(all, |c: ConnectorView| display_size(c))
}

/// The size of the display on a connector, in its preferred mode.
fn size_on(c: &Connector) -> (r: Option<(u32, u32)>)
    ensures
        size_view(r) == display_size(c@),
{
    if !starts_with(c.name.as_str(), "card") || position_of(c.name.as_str(), "-").is_none() {
        return None;
    }
    let connected = match &c.status {
        Some(s) => same(trim(s.as_str()), "connected"),
        None => false,
    };
    if !connected {
        return None;
    }
    match &c.modes {
        Some(modes) => {
            let all = lines_of(modes.as_str());
            if all.len() == 0 {
                None
            } else {
                assert(lines(modes@)[0] == all@[0]@);
                parse_drm_mode(all[0])
            }
        },
        None => None,
    }
}

/// The number of pixels of a size.
fn area_of(s: (u32, u32)) -> (r: u64)
    ensures
        r == s.0 as nat * s.1 as nat,
{
    assert(s.0 * s.1 <= u32::MAX * u32::MAX) by (nonlinear_arith);
    s.0 as u64 * s.1 as u64
}

/// The contents of the connectors; none where they cannot be listed.
pub open spec fn connector_views(all: Option<Vec<Connector>>) -> Seq<ConnectorView> {
    match all {
        Some(v) => v@.map_values(|c: Connector| c@),
        None => Seq::empty(),
    }
}

/// The size of the largest display that is connected, if any is.
pub fn primary_drm_resolution(connectors: &Option<Vec<Connector>>) -> (r: Option<(u32, u32)>)
    ensures
        size_view(r) == largest(display_sizes(connector_views(*connectors))),
{
    let ghost all = connector_views(*connectors);
    let ghost pick = |c: ConnectorView| display_size(c);
    match connectors {
        None => {
            assert(display_sizes(all) =~= Seq::empty());
            None
        },
        Some(v) => {
            let mut best: Option<(u32, u32)> = None;
            let mut i: usize = 0;
            assert(all.take(0).filter_map(pick) =~= Seq::empty());
            while i < v.len()
                invariant
                    all == v@.map_values(|c: Connector| c@),
                    pick == (|c: ConnectorView| display_size(c)),
                    i <= v@.len(),
                    size_view(best) == largest(all.take(i as int).filter_map(pick)),
                decreases v@.len() - i,
            {
                let ghost before = all.take(i as int).filter_map(pick);
                proof {
                    all.lemma_filter_map_take_succ(pick, i as int);
                    assert(all[i as int] == v@[i as int]@);
                }
                match size_on(&v[i]) {
                    Some(size) => {
                        let larger = match best {
                            Some(b) => area_of(size) > area_of(b),
                            None => true,
                        };
                        proof {
                            let now = before.push((size.0 as nat, size.1 as nat));
                            assert(all.take(i + 1).filter_map(pick) =~= now);
                            assert(now.drop_last() =~= before);
                        }
                        if larger {
                            best = Some(size);
                        }
                    },
                    None => {
                        assert(all.take(i + 1).filter_map(pick) =~= before);
                    },
                }
                i = i + 1;
            }
            assert(all.take(i as int) =~= all);
            best
        },
    }
}

/// What the environment says of the display.
#[derive(Debug)]
pub struct DisplaySettings {
    /// `SLINT_SCALE_FACTOR` is set.
    pub scale_given: bool,
    /// The value of `SLINT_BACKEND`.
    pub backend: Option<String>,
    /// `WAYLAND_DISPLAY` is set.
    pub wayland: bool,
    /// `DISPLAY` is set.
    pub x11: bool,
}

/// The contents of a `DisplaySettings`.
pub struct SettingsView {
    pub scale_given: bool,
    pub backend: Option<Seq<char>>,
    pub wayland: bool,
    pub x11: bool,
}

impl View for DisplaySettings {
    type V = SettingsView;

    open spec fn view(&self) -> SettingsView {
        SettingsView {
            scale_given: self.scale_given,
            backend: owned_view(self.backend),
            wayland: self.wayland,
            x11: self.x11,
        }
    }
}

/// The screen is drawn on without a window system.
pub open spec fn draws_alone(s: SettingsView) -> bool {
    (s.backend matches Some(b) && find(b, "linuxkms"@) is Some) || (!s.wayland && !s.x11)
}

/// The scale is to be chosen by the size of the display: it is not given, and no window
/// system sees to it.
pub open spec fn chooses_scale(s: SettingsView) -> bool {
    !s.scale_given && draws_alone(s)
}

/// `height` over the design height in units of 2^-23, to the precision of a single, for a
/// quotient between one and four.
pub open spec fn quotient_units(height: nat) -> nat {
    if height < 1440 {
        round_half_even(height * 0x80_0000, 720)
    } else {
        2 * round_half_even(height * 0x40_0000, 720)
    }
}

/// A hundred times `q` units, in the same units, to the precision of a single, for a product
/// between a hundred and four hundred.
pub open spec fn hundredfold_units(q: nat) -> nat {
    if q * 100 < 0x4000_0000 {
        64 * round_half_even(q * 100, 64)
    } else if q * 100 < 0x8000_0000 {
        128 * round_half_even(q * 100, 128)
    } else {
        256 * round_half_even(q * 100, 256)
    }
}

/// The scale for a display of that height, in hundredths: the height over the design height,
/// at least one and at most four.
pub open spec fn scale_hundredths(height: nat) -> nat {
    if height <= 720 {
        100
    } else if height >= 2880 {
        400
    } else {
        (hundredfold_units(quotient_units(height)) + 0x40_0000) / 0x80_0000
    }
}

/// The scale of a display between the design height and four times it is the one with which
/// it shows the design height, to the nearest hundredth.
pub proof fn law_scale_fits_the_design_height(height: nat)
    requires
        720 <= height <= 2880,
    ensures
        -360 <= 720 * scale_hundredths(height) - 100 * height <= 360,
{
    if 720 < height < 2880 {
        let q = quotient_units(height);
        let u = hundredfold_units(q);
        lemma_round_half_even(height * 0x80_0000, 720);
        lemma_round_half_even(height * 0x40_0000, 720);
        lemma_round_half_even(q * 100, 64);
        lemma_round_half_even(q * 100, 128);
        lemma_round_half_even(q * 100, 256);
    }
}

/// The scale is between one and four, whatever the display: one up to the design height, four
/// from four times it on.
pub proof fn law_scale_is_bounded(height: nat)
    ensures
        100 <= scale_hundredths(height) <= 400,
        height <= 720 ==> scale_hundredths(height) == 100,
        height >= 4 * 720 ==> scale_hundredths(height) == 400,
{
    if 720 < height < 2880 {
        law_scale_fits_the_design_height(height);
    }
}

/// The scale for a display of that height, in hundredths.
pub fn scale_for(height: u32) -> (r: u32)
    ensures
        r == scale_hundredths(height as nat),
{
    proof {
        law_scale_is_bounded(height as nat);
    }
    if height <= DESIGN_HEIGHT {
        return 100;
    }
    if height >= 4 * DESIGN_HEIGHT {
        return 400;
    }
    let q: u128 = if height < 2 * DESIGN_HEIGHT {
        divide_half_even(height as u128 * 0x80_0000, 720)
    } else {
        2 * divide_half_even(height as u128 * 0x40_0000, 720)
    };
    proof {
        lemma_round_half_even(height as nat * 0x80_0000, 720);
        lemma_round_half_even(height as nat * 0x40_0000, 720);
    }
    let p: u128 = q * 100;
    proof {
        lemma_round_half_even(p as nat, 64);
        lemma_round_half_even(p as nat, 128);
        lemma_round_half_even(p as nat, 256);
    }
    let u: u128 = if p < 0x4000_0000 {
        64 * divide_half_even(p, 64)
    } else if p < 0x8000_0000 {
        128 * divide_half_even(p, 128)
    } else {
        256 * divide_half_even(p, 256)
    };
    ((u + 0x40_0000) / 0x80_0000) as u32
}

/// Tells whether the scale is to be chosen by the size of the display.
pub fn picks_scale(settings: &DisplaySettings) -> (r: bool)
    ensures
        r == chooses_scale(settings@),
{
    let named = match &settings.backend {
        Some(b) => position_of(b.as_str(), "linuxkms").is_some(),
        None => false,
    };
    !settings.scale_given && (named || (!settings.wayland && !settings.x11))
}

/// The scale to set, in hundredths; none if it is not to be set, or no display is there.
pub open spec fn scale_to_set(s: SettingsView, resolution: Option<(nat, nat)>) -> Option<nat> {
    match resolution {
        Some(size) => if chooses_scale(s) {
            Some(scale_hundredths(size.1))
        } else {
            None
        },
        None => None,
    }
}

/// A scale is set exactly where a display is there, none is given, and either the backend
/// draws on the screen itself or neither window system runs. The height of the display alone
/// decides which: the design height fills it, to the nearest hundredth, between one and four.
pub proof fn law_scale_is_set_without_a_window_system(
    s: SettingsView,
    resolution: Option<(nat, nat)>,
)
    ensures
        scale_to_set(s, resolution) is Some <==> resolution is Some && !s.scale_given && ((s.backend
            matches Some(b) && find(b, "linuxkms"@) is Some) || !(s.wayland || s.x11)),
        scale_to_set(s, resolution) matches Some(h) ==> {
            let (width, height) = resolution->0;
            &&& height <= 720 ==> h == 100
            &&& height >= 2880 ==> h == 400
            &&& 720 <= height <= 2880 ==> -360 <= 720 * h - 100 * height <= 360
        },
{
    if let Some(size) = resolution {
        law_scale_is_bounded(size.1);
        if 720 <= size.1 <= 2880 {
            law_scale_fits_the_design_height(size.1);
        }
    }
}

/// The contents of an optional scale.
pub open spec fn scale_view(o: Option<u32>) -> Option<nat> {
    match o {
        Some(h) => Some(h as nat),
        None => None,
    }
}

/// The scale to set, in hundredths, from what the environment says and the size of the
/// display; none if it is not to be set, or no display is there.
pub fn desired_kms_scale(settings: &DisplaySettings, resolution: Option<(u32, u32)>) -> (r: Option<
    u32,
>)
    ensures
        scale_view(r) == scale_to_set(settings@, size_view(resolution)),
{
    if !picks_scale(settings) {
        return None;
    }
    match resolution {
        Some(size) => Some(scale_for(size.1)),
        None => None,
    }
}

/// Milliseconds between two looks for a display.
pub const LOOK_PAUSE: u64 = 500;

/// Nanoseconds between two notices that a display is waited for.
pub const NOTICE_GAP: u128 = 10_000_000_000;

/// A notice that a display is waited for is due at the time `now`, the last one having been
/// given at `last`.
pub open spec fn notice_due(last: Option<nat>, now: nat) -> bool {
    match last {
        Some(t) => now >= t + NOTICE_GAP,
        None => true,
    }
}

/// The times of the notices given when no display was there at any of the times `looks`.
pub open spec fn notices(looks: Seq<nat>) -> Seq<nat>
    decreases looks.len(),
{
    if looks.len() == 0 {
        Seq::empty()
    } else {
        let given = notices(looks.drop_last());
        if notice_due(last_of(given), looks.last()) {
            given.push(looks.last())
        } else {
            given
        }
    }
}

/// The last of some times, if there is one.
pub open spec fn last_of(times: Seq<nat>) -> Option<nat> {
    if times.len() == 0 {
        None
    } else {
        Some(times.last())
    }
}

/// The first look without a display gives a notice. From then on, each notice comes at least
/// ten seconds behind the one before it, and no look comes ten seconds behind the last
/// notice without giving another.
pub proof fn law_waiting_is_told_every_ten_seconds(looks: Seq<nat>)
    requires
        looks.len() > 0,
    ensures
        notices(looks).len() > 0,
        notices(looks)[0] == looks[0],
        forall|k: int|
            0 < k < notices(looks).len() ==> #[trigger] notices(looks)[k] >= notices(looks)[k - 1]
                + 10 * 1_000_000_000,
        looks.last() < notices(looks).last() + 10 * 1_000_000_000,
    decreases looks.len(),
{
    let rest = looks.drop_last();
    let given = notices(rest);
    if rest.len() > 0 {
        law_waiting_is_told_every_ten_seconds(rest);
        if notice_due(last_of(given), looks.last()) {
            let now = given.push(looks.last());
            assert(notices(looks) == now);
            assert forall|k: int| 0 < k < now.len() implies #[trigger] now[k] >= now[k - 1]
                + NOTICE_GAP by {
                if k < given.len() {
                    assert(now[k] == given[k] && now[k - 1] == given[k - 1]);
                } else {
                    assert(now[k - 1] == given.last());
                }
            }
        }
    }
}

/// The times of `n` looks that follow each other with the usual pause, in nanoseconds.
pub open spec fn regular_looks(n: nat) -> Seq<nat> {
    Seq::new(n, |i: int| (i * LOOK_PAUSE * 1_000_000) as nat)
}

/// Of looks that follow each other with the usual pause, every twentieth gives a notice: ten
/// seconds lie between two.
pub proof fn law_every_twentieth_look_gives_a_notice(n: nat)
    ensures
        notices(regular_looks(n)) == Seq::new(
            ((n + 19) / 20) as nat,
            |i: int| (i * 10_000_000_000) as nat,
        ),
    decreases n,
{
    let looks = regular_looks(n);
    let given = Seq::new(((n + 19) / 20) as nat, |i: int| (i * 10_000_000_000) as nat);
    if n == 0 {
        assert(notices(looks) =~= given);
    } else {
        let m = (n - 1) as nat;
        law_every_twentieth_look_gives_a_notice(m);
        assert(looks.drop_last() =~= regular_looks(m));
        let before = notices(regular_looks(m));
        assert(looks.last() == m * 500_000_000);
        if m % 20 == 0 {
            assert(given =~= before.push(looks.last()));
        } else {
            assert(given =~= before);
            assert(before.last() == ((m + 19) / 20 - 1) * 10_000_000_000);
        }
    }
}

/// What follows from a look for a display.
#[derive(Debug, Clone, Copy, PartialEq, Eq, Structural)]
pub enum Look {
    /// One is there. It is worth saying if it was waited for.
    Ready { waited: bool },
    /// None is there: look again after a pause, giving a notice first if one is due.
    Again { notice: bool },
}

/// What follows from a look at the time `now`, and when the last notice has then been given.
pub open spec fn looked(last: Option<nat>, ready: bool, now: nat) -> (Look, Option<nat>) {
    if ready {
        (Look::Ready { waited: last is Some }, last)
    } else if notice_due(last, now) {
        (Look::Again { notice: true }, Some(now))
    } else {
        (Look::Again { notice: false }, last)
    }
}

/// The time of the last notice after looks at the times `looks` that found no display.
pub open spec fn last_notice(looks: Seq<nat>) -> Option<nat>
    decreases looks.len(),
{
    if looks.len() == 0 {
        None
    } else {
        looked(last_notice(looks.drop_last()), false, looks.last()).1
    }
}

/// Each look without a display is followed by another, and gives a notice exactly where one is
/// among the notices for that time. A display that is found is said to have been waited for
/// exactly where a look before found none.
pub proof fn law_looks_give_the_notices(looks: Seq<nat>, now: nat)
    ensures
        looked(last_notice(looks), true, now).0 == (Look::Ready { waited: looks.len() > 0 }),
        looked(last_notice(looks), false, now).0 == (Look::Again {
            notice: notices(looks.push(now)) == notices(looks).push(now),
        }),
        last_notice(looks) == last_of(notices(looks)),
    decreases looks.len(),
{
    assert(looks.push(now).drop_last() =~= looks);
    let given = notices(looks);
    assert(given.push(now).len() != given.len());
    if looks.len() > 0 {
        law_looks_give_the_notices(looks.drop_last(), looks.last());
        law_waiting_is_told_every_ten_seconds(looks);
    }
}

/// Waiting for a display.
#[derive(Debug)]
pub struct DisplayWait {
    last: Option<u128>,
}

impl View for DisplayWait {
    type V = Option<nat>;

    closed spec fn view(&self) -> Option<nat> {
        match self.last {
            Some(t) => Some(t as nat),
            None => None,
        }
    }
}

impl DisplayWait {
    /// No notice has been given yet.
    pub fn new() -> (r: DisplayWait)
        ensures
            r@ == None::<nat>,
    {
        DisplayWait { last: None }
    }

    /// What follows from a look at the time `now`, in nanoseconds.
    pub fn look(&mut self, ready: bool, now: u128) -> (r: Look)
        ensures
            (r, final(self)@) == looked(old(self)@, ready, now as nat),
    {
        if ready {
            return Look::Ready { waited: self.last.is_some() };
        }
        let due = match self.last {
            Some(t) => now >= t && now - t >= NOTICE_GAP,
            None => true,
        };
        if due {
            self.last = Some(now);
        }
        Look::Again { notice: due }
    }
}

/// The language is Japanese.
pub open spec fn is_japanese(lang: Option<Seq<char>>) -> bool {
    lang matches Some(l) && "ja"@.is_prefix_of(l)
}

/// A language is Japanese exactly where its name starts with `ja`, whatever follows.
pub proof fn law_japanese_starts_with_ja(rest: Seq<char>, other: Seq<char>)
    ensures
        is_japanese(Some("ja"@ + rest)),
        other.len() < 2 || other[0] != 'j' || other[1] != 'a' ==> !is_japanese(Some(other)),
        !is_japanese(None),
{
    reveal_strlit("ja");
    let s = "ja"@ + rest;
    assert(s.subrange(0, 2) =~= "ja"@);
    if other.len() >= 2 {
        assert(other.subrange(0, 2)[0] == other[0]);
        assert(other.subrange(0, 2)[1] == other[1]);
    }
}

/// Tells whether the language, as `LANG` gives it, is Japanese.
pub fn speaks_japanese(lang: Option<&str>) -> (r: bool)
    ensures
        r == is_japanese(option_view(lang)),
{
    match lang {
        Some(l) => starts_with(l, "ja"),
        None => false,
    }
}

} // verus!
