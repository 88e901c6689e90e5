//! The terminal page: when its shell runs, how large it is, and which keys repeat.

use vstd::prelude::*;

use crate::text::same;

verus! {

/// Milliseconds between two ticks.
pub const TICK_MILLIS: u64 = 16;

/// Height of the header above the terminal, before scaling.
pub const HEADER_HEIGHT: u32 = 56;

/// The tick, counted from the press, on which a key that is held is repeated first.
pub const REPEAT_DELAY: u32 = 22;

/// Ticks from one repeat to the next.
pub const REPEAT_INTERVAL: u32 = 3;

/// A key that is held, on a platform that does not repeat keys itself.
///
/// A key that comes again without having been released shows that the platform does repeat
/// keys. From then on nothing is repeated here.
#[derive(Debug)]
pub struct KeyRepeat {
    bytes: Vec<u8>,
    key: String,
    active: bool,
    delay: u32,
    platform: bool,
}

/// The contents of a `KeyRepeat`.
#[verifier::ext_equal]
pub struct RepeatView {
    /// What the key sends.
    pub bytes: Seq<u8>,
    /// The key that was pressed last.
    pub key: Seq<char>,
    /// The key is held.
    pub active: bool,
    /// Ticks that pass before the one that repeats it.
    pub delay: nat,
    /// The platform repeats keys.
    pub platform: bool,
}

impl View for KeyRepeat {
    type V = RepeatView;

    closed spec fn view(&self) -> RepeatView {
        RepeatView {
            bytes: self.bytes@,
            key: self.key@,
            active: self.active,
            delay: self.delay as nat,
            platform: self.platform,
        }
    }
}

/// Something that happens to the keys.
pub enum KeyEvent {
    Press { key: Seq<char>, bytes: Seq<u8> },
    Release { key: Seq<char> },
    Stop,
    Tick,
}

impl RepeatView {
    /// No key has been pressed.
    pub open spec fn start() -> RepeatView {
        RepeatView {
            bytes: Seq::empty(),
            key: ""@,
            active: false,
            delay: 0,
            platform: false,
        }
    }

    /// A key is pressed.
    pub open spec fn press(self, key: Seq<char>, bytes: Seq<u8>) -> RepeatView {
        RepeatView {
            bytes,
            key,
            active: true,
            delay: (REPEAT_DELAY - 1) as nat,
            platform: self.platform || (self.active && self.key == key),
        }
    }

    /// A key is released.
    pub open spec fn release(self, key: Seq<char>) -> RepeatView {
        if self.key == key {
            RepeatView { active: false, ..self }
        } else {
            self
        }
    }

    /// What is held is let go.
    pub open spec fn stop(self) -> RepeatView {
        RepeatView { active: false, ..self }
    }

    /// A key is held that is repeated here.
    pub open spec fn repeats(self) -> bool {
        self.active && !self.platform && self.bytes.len() > 0
    }

    /// The next tick repeats the key.
    pub open spec fn fires(self) -> bool {
        self.repeats() && self.delay == 0
    }

    /// A tick passes.
    pub open spec fn tick(self) -> RepeatView {
        if !self.repeats() {
            self
        } else if self.delay > 0 {
            RepeatView { delay: (self.delay - 1) as nat, ..self }
        } else {
            RepeatView { delay: (REPEAT_INTERVAL - 1) as nat, ..self }
        }
    }

    /// `n` ticks pass.
    pub open spec fn ticks(self, n: nat) -> RepeatView
        decreases n,
    {
        if n == 0 {
            self
        } else {
            self.ticks((n - 1) as nat).tick()
        }
    }

    /// Something happens to the keys.
    pub open spec fn happen(self, e: KeyEvent) -> RepeatView {
        match e {
            KeyEvent::Press { key, bytes } => self.press(key, bytes),
            KeyEvent::Release { key } => self.release(key),
            KeyEvent::Stop => self.stop(),
            KeyEvent::Tick => self.tick(),
        }
    }

    /// Something happens to the keys, again and again.
    pub open spec fn run(self, events: Seq<KeyEvent>) -> RepeatView
        decreases events.len(),
    {
        if events.len() == 0 {
            self
        } else {
            self.run(events.drop_last()).happen(events.last())
        }
    }
}

/// A key that is pressed and held is repeated on tick 22 for the first time, and then on
/// every third, as long as nothing else happens. Ticks are counted from one.
pub proof fn law_held_key_repeats(s: RepeatView, key: Seq<char>, bytes: Seq<u8>, m: nat)
    requires
        bytes.len() > 0,
        !s.press(key, bytes).platform,
        m > 0,
    ensures
        s.press(key, bytes).ticks((m - 1) as nat).fires() <==> m >= 22 && (m - 22) % 3 == 0,
        s.press(key, bytes).ticks((m - 1) as nat).bytes == bytes,
{
    lemma_held(s, key, bytes, (m - 1) as nat);
}

/// In time, a held key is repeated 352 ms after it was pressed, and every 48 ms from then on.
pub proof fn law_held_key_repeats_in_time(s: RepeatView, key: Seq<char>, bytes: Seq<u8>, m: nat)
    requires
        bytes.len() > 0,
        !s.press(key, bytes).platform,
        m > 0,
    ensures
        s.press(key, bytes).ticks((m - 1) as nat).fires() <==> m * TICK_MILLIS >= 352 && (m
            * TICK_MILLIS - 352) % 48 == 0,
{
    law_held_key_repeats(s, key, bytes, m);
}

proof fn lemma_held(s: RepeatView, key: Seq<char>, bytes: Seq<u8>, n: nat)
    requires
        bytes.len() > 0,
        !s.press(key, bytes).platform,
    ensures
        ({
            let t = s.press(key, bytes).ticks(n);
            &&& t.repeats()
            &&& t.bytes == bytes
            &&& t.delay == (if n < REPEAT_DELAY {
                REPEAT_DELAY - 1 - n
            } else {
                (3 - (n + 1 - REPEAT_DELAY) % 3) % 3
            })
        }),
    decreases n,
{
    if n > 0 {
        lemma_held(s, key, bytes, (n - 1) as nat);
    }
}

/// Once the platform has been seen to repeat keys, nothing is repeated here any more,
/// whatever happens.
pub proof fn law_platform_repeat_is_left_alone(s: RepeatView, events: Seq<KeyEvent>)
    requires
        s.platform,
    ensures
        s.run(events).platform,
        !s.run(events).fires(),
    decreases events.len(),
{
    if events.len() > 0 {
        law_platform_repeat_is_left_alone(s, events.drop_last());
    }
}

/// A key that comes again without having been released shows that the platform repeats keys.
pub proof fn law_platform_repeat_is_seen(
    s: RepeatView,
    key: Seq<char>,
    bytes: Seq<u8>,
    again: Seq<u8>,
    n: nat,
)
    ensures
        s.press(key, bytes).ticks(n).press(key, again).platform,
{
    lemma_still_held(s.press(key, bytes), n);
}

proof fn lemma_still_held(s: RepeatView, n: nat)
    ensures
        s.ticks(n).active == s.active,
        s.ticks(n).key == s.key,
    decreases n,
{
    if n > 0 {
        lemma_still_held(s, (n - 1) as nat);
    }
}

/// A key that is pressed is one that the platform repeats only if it was held already; another
/// key, or one that was released, is not taken for that.
pub proof fn law_other_keys_are_no_repeat(s: RepeatView, key: Seq<char>, bytes: Seq<u8>)
    ensures
        s.press(key, bytes).platform <==> s.platform || (s.active && s.key == key),
        s.press(key, bytes).active,
        s.press(key, bytes).key == key,
        s.release(key).platform == s.platform,
        s.stop().platform == s.platform,
        s.tick().platform == s.platform,
        !RepeatView::start().platform,
{
}

/// A release ends what its key does, and nothing that another key does.
pub proof fn law_release_is_for_its_key(s: RepeatView, key: Seq<char>)
    ensures
        s.key == key ==> !s.release(key).active,
        s.key != key ==> s.release(key) == s,
        !s.stop().active,
{
}

/// A key that was let go is not repeated until a key is pressed.
pub proof fn law_released_key_is_silent(s: RepeatView, events: Seq<KeyEvent>)
    requires
        !s.active,
        forall|i: int| 0 <= i < events.len() ==> !((#[trigger] events[i]) is Press),
    ensures
        !s.run(events).active,
        !s.run(events).fires(),
    decreases events.len(),
{
    if events.len() > 0 {
        let rest = events.drop_last();
        assert forall|i: int| 0 <= i < rest.len() implies !((#[trigger] rest[i]) is Press) by {
            assert(rest[i] == events[i]);
        }
        law_released_key_is_silent(s, rest);
        assert(!(events[events.len() - 1] is Press));
    }
}

impl KeyRepeat {
    /// No key has been pressed.
    pub fn new() -> (r: KeyRepeat)
        ensures
            r@ == RepeatView::start(),
    {
        let r = KeyRepeat {
            bytes: Vec::new(),
            key: "".to_owned(),
            active: false,
            delay: 0,
            platform: false,
        };
        assert(r@ =~= RepeatView::start());
        r
    }

    /// A key is pressed that sends `bytes`.
    pub fn press(&mut self, key: &str, bytes: Vec<u8>)
        ensures
            final(self)@ == old(self)@.press(key@, bytes@),
    {
        if self.active && same(self.key.as_str(), key) {
            self.platform = true;
        }
        self.bytes = bytes;
        self.key = key.to_owned();
        self.active = true;
        self.delay = REPEAT_DELAY - 1;
    }

    /// A key is released.
    pub fn release(&mut self, key: &str)
        ensures
            final(self)@ == old(self)@.release(key@),
    {
        if same(self.key.as_str(), key) {
            self.active = false;
        }
    }

    /// What is held is let go.
    pub fn stop(&mut self)
        ensures
            final(self)@ == old(self)@.stop(),
    {
        self.active = false;
    }

    /// A tick passes. Gives what is to be sent, if a key is repeated.
    pub fn tick(&mut self) -> (r: Option<Vec<u8>>)
        ensures
            final(self)@ == old(self)@.tick(),
            match r {
                Some(b) => old(self)@.fires() && b@ == old(self)@.bytes,
                None => !old(self)@.fires(),
            },
    {
        if self.active && !self.platform && self.bytes.len() > 0 {
            if self.delay > 0 {
                self.delay = self.delay - 1;
                None
            } else {
                self.delay = REPEAT_INTERVAL - 1;
                let b = self.bytes.clone();
                assert(b@ =~= self.bytes@);
                Some(b)
            }
        } else {
            None
        }
    }
}

/// The page that is shown, as far as it matters here.
#[derive(Debug, Clone, Copy, PartialEq, Eq, Structural)]
pub enum Shown {
    /// The terminal.
    Terminal,
    /// The list of disks.
    Disks,
    /// Any other page.
    Other,
}

/// What a tick asks for.
#[derive(Debug, Clone, Copy, PartialEq, Eq, Structural)]
pub enum ShellAction {
    /// Nothing.
    Rest,
    /// Start a shell.
    Open,
    /// End the shell.
    Close,
    /// Go on with the shell.
    Drive,
}

/// The shell of the terminal page.
///
/// It runs only while the page is shown.
#[derive(Debug)]
pub struct Shell {
    open: bool,
    repeat: KeyRepeat,
}

/// The contents of a `Shell`.
#[verifier::ext_equal]
pub struct ShellView {
    /// The shell runs.
    pub open: bool,
    /// The keys.
    pub repeat: RepeatView,
}

impl View for Shell {
    type V = ShellView;

    closed spec fn view(&self) -> ShellView {
        ShellView { open: self.open, repeat: self.repeat@ }
    }
}

/// The page after a shell was to be started: where that failed, the list of disks.
pub open spec fn page_after_start(success: bool, page: Shown) -> Shown {
    if success {
        page
    } else {
        Shown::Disks
    }
}

/// The page after the shell has ended by itself: the list of disks.
pub open spec fn page_after_exit() -> Shown {
    Shown::Disks
}

impl ShellView {
    /// No shell runs.
    pub open spec fn closed(self) -> ShellView {
        ShellView { open: false, repeat: self.repeat.stop() }
    }

    /// What the beginning of a tick asks for.
    pub open spec fn asks(self, page: Shown) -> ShellAction {
        if page is Terminal {
            if self.open {
                ShellAction::Drive
            } else {
                ShellAction::Open
            }
        } else if self.open {
            ShellAction::Close
        } else {
            ShellAction::Rest
        }
    }

    /// A tick begins.
    pub open spec fn begin(self, page: Shown) -> ShellView {
        if !(page is Terminal) && self.open {
            self.closed()
        } else {
            self
        }
    }

    /// Starting a shell has succeeded, or not.
    pub open spec fn opened(self, success: bool) -> ShellView {
        if success {
            ShellView { open: true, repeat: self.repeat.stop() }
        } else {
            self
        }
    }

    /// What is asked for when the shell has been driven.
    pub open spec fn asks_on(self, page: Shown) -> ShellAction {
        if page is Terminal {
            ShellAction::Drive
        } else {
            ShellAction::Close
        }
    }

    /// The shell has been driven. It may have ended, and the page have been left.
    pub open spec fn driven(self, page: Shown) -> ShellView {
        if page is Terminal {
            self
        } else {
            self.closed()
        }
    }

    /// The shell and the page after a shell that runs was driven: it may end by itself.
    pub open spec fn drive(self, page: Shown, exits: bool) -> (ShellView, Shown) {
        let after = if exits {
            page_after_exit()
        } else {
            page
        };
        (self.driven(after), after)
    }

    /// The shell and the page after a whole tick: a shell that is asked for can be started
    /// or not, and a shell that is driven may end by itself.
    pub open spec fn through(self, page: Shown, started: bool, exits: bool) -> (ShellView, Shown) {
        let begun = self.begin(page);
        match self.asks(page) {
            ShellAction::Drive => begun.drive(page, exits),
            ShellAction::Open => if started {
                begun.opened(true).drive(page_after_start(true, page), exits)
            } else {
                (begun.opened(false), page_after_start(false, page))
            },
            _ => (begun, page),
        }
    }
}

/// What a tick does with the shell and with the page.
///
/// A shell is started exactly where the terminal page is shown and none runs. Where the page
/// is not shown, at the beginning of the tick or once the shell was driven, none runs
/// afterwards, and a key that was held is let go. Where a shell cannot be started, or ends by
/// itself, the list of disks is shown. Otherwise the page stays as it is.
pub proof fn law_tick_keeps_shell_and_page_together(
    s: ShellView,
    page: Shown,
    started: bool,
    exits: bool,
    seen: Shown,
)
    ensures
        !(seen is Terminal) ==> s.asks_on(seen) == ShellAction::Close && !s.driven(seen).open
            && !s.driven(seen).repeat.active,
        ({
            let (end, shown) = s.through(page, started, exits);
            let runs = page is Terminal && (s.open || started);
            &&& s.asks(page) == ShellAction::Open <==> page is Terminal && !s.open
            &&& end.open <==> runs && !exits
            &&& end.open ==> shown is Terminal
            &&& runs && exits ==> shown is Disks && !end.repeat.active
            &&& page is Terminal && !s.open && !started ==> shown is Disks
            &&& !(page is Terminal) ==> shown == page
            &&& !(page is Terminal) && s.open ==> !end.repeat.active
            &&& runs && !exits ==> shown == page
        }),
{
}

impl Shell {
    /// No shell runs, and no key has been pressed.
    pub fn new() -> (r: Shell)
        ensures
            r@ == (ShellView { open: false, repeat: RepeatView::start() }),
    {
        Shell { open: false, repeat: KeyRepeat::new() }
    }

    /// A tick begins, with the page `page` shown.
    pub fn begin(&mut self, page: Shown) -> (r: ShellAction)
        ensures
            r == old(self)@.asks(page),
            final(self)@ == old(self)@.begin(page),
    {
        if page == Shown::Terminal {
            if self.open {
                ShellAction::Drive
            } else {
                ShellAction::Open
            }
        } else if self.open {
            self.open = false;
            self.repeat.stop();
            ShellAction::Close
        } else {
            ShellAction::Rest
        }
    }

    /// Starting a shell has succeeded, or not, with the page `page` shown. Gives the page to
    /// show.
    pub fn opened(&mut self, success: bool, page: Shown) -> (r: Shown)
        ensures
            r == page_after_start(success, page),
            final(self)@ == old(self)@.opened(success),
    {
        if success {
            self.open = true;
            self.repeat.stop();
            page
        } else {
            Shown::Disks
        }
    }

    /// The shell has ended by itself. Gives the page to show. The shell is given up once it
    /// has been driven.
    pub fn exited(&self) -> (r: Shown)
        ensures
            r == page_after_exit(),
    {
        Shown::Disks
    }

    /// The shell has been driven, and the page `page` is shown now.
    pub fn driven(&mut self, page: Shown) -> (r: ShellAction)
        ensures
            r == old(self)@.asks_on(page),
            final(self)@ == old(self)@.driven(page),
    {
        if page == Shown::Terminal {
            ShellAction::Drive
        } else {
            self.open = false;
            self.repeat.stop();
            ShellAction::Close
        }
    }

    /// A key is pressed that sends `bytes`.
    pub fn press(&mut self, key: &str, bytes: Vec<u8>)
        ensures
            final(self)@ == (ShellView {
                open: old(self)@.open,
                repeat: old(self)@.repeat.press(key@, bytes@),
            }),
    {
        self.repeat.press(key, bytes);
    }

    /// A key is released.
    pub fn release(&mut self, key: &str)
        ensures
            final(self)@ == (ShellView {
                open: old(self)@.open,
                repeat: old(self)@.repeat.release(key@),
            }),
    {
        self.repeat.release(key);
    }

    /// A tick passes for the keys. Gives what is to be sent, if a key is repeated.
    pub fn tick(&mut self) -> (r: Option<Vec<u8>>)
        ensures
            final(self)@ == (ShellView {
                open: old(self)@.open,
                repeat: old(self)@.repeat.tick(),
            }),
            match r {
                Some(b) => old(self)@.repeat.fires() && b@ == old(self)@.repeat.bytes,
                None => !old(self)@.repeat.fires(),
            },
    {
        self.repeat.tick()
    }
}

/// The size of what is below the header.
pub open spec fn area_below(width: nat, height: nat, header: nat) -> (nat, nat) {
    (
        width,
        if height >= header {
            (height - header) as nat
        } else {
            0
        },
    )
}

/// The size of the terminal in pixels: that of the window, but for the header.
pub fn terminal_area(width: u32, height: u32, header: u32) -> (r: (u32, u32))
    ensures
        (r.0 as nat, r.1 as nat) == area_below(width as nat, height as nat, header as nat),
{
    if height >= header {
        (width, height - header)
    } else {
        (width, 0)
    }
}

/// What is below the header and the header make the window, unless the header is higher.
pub proof fn law_terminal_fills_the_window(width: nat, height: nat, header: nat)
    ensures
        area_below(width, height, header).0 == width,
        header <= height ==> area_below(width, height, header).1 + header == height,
        header > height ==> area_below(width, height, header).1 == 0,
{
}

/// There is something to draw on: at least one pixel.
pub open spec fn can_be_drawn_on(width: nat, height: nat) -> bool {
    width > 0 && height > 0
}

/// There is something to draw on exactly where the area is not empty.
pub proof fn law_drawable_means_pixels(width: nat, height: nat)
    ensures
        can_be_drawn_on(width, height) <==> width * height >= 1,
{
    if width > 0 && height > 0 {
        assert(width * height >= 1) by (nonlinear_arith)
            requires
                width > 0,
                height > 0,
        ;
    } else {
        assert(width * height == 0) by (nonlinear_arith)
            requires
                width == 0 || height == 0,
        ;
    }
}

/// Tells whether there is anything to draw on.
pub fn is_drawable(area: (u32, u32)) -> (r: bool)
    ensures
        r == can_be_drawn_on(area.0 as nat, area.1 as nat),
{
    area.0 > 0 && area.1 > 0
}

/// The size to give the terminal, in columns and rows, where `cells` fit and it has `grid`;
/// none if nothing fits or nothing changes.
pub open spec fn grid_to_give(cells: (u32, u32), grid: (u32, u32)) -> Option<(u32, u32)> {
    if cells.0 > 0 && cells.1 > 0 && cells != grid {
        Some(cells)
    } else {
        None
    }
}

/// With the size that it is given, or the one that it has where it is given none, the terminal
/// has the cells that fit, however many, as long as any do. It is given none that it has, and
/// is not given one twice.
pub proof fn law_terminal_has_the_cells_that_fit(cells: (u32, u32), grid: (u32, u32))
    ensures
        ({
            let now = match grid_to_give(cells, grid) {
                Some(g) => g,
                None => grid,
            };
            &&& cells.0 >= 1 && cells.1 >= 1 ==> now == cells
            &&& cells.0 == 0 || cells.1 == 0 ==> now == grid && grid_to_give(cells, grid) is None
            &&& grid_to_give(cells, grid) != Some(grid)
            &&& grid_to_give(cells, now) is None
        }),
{
}

/// The size to give the terminal, in columns and rows, where `cells` fit and it has `grid`;
/// none if nothing fits or nothing changes.
pub fn new_grid(cells: (u32, u32), grid: (u32, u32)) -> (r: Option<(u32, u32)>)
    ensures
        r == grid_to_give(cells, grid),
{
    if cells.0 > 0 && cells.1 > 0 && (cells.0 != grid.0 || cells.1 != grid.1) {
        Some(cells)
    } else {
        None
    }
}

} // verus!
