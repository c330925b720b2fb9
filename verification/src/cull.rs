//! Culling: star ratings, pick/reject flags, the culling keystrokes, and
//! stepping through the photos of a folder.

use vstd::prelude::*;

verus! {

/// Highest star rating a photo can carry.
pub const MAX_RATING: u8 = 5;

/// Culling flag: reject / unflagged / pick.
#[derive(Clone, Copy, PartialEq, Eq, Debug, Structural)]
pub enum Flag {
    Reject,
    Unflagged,
    Pick,
}

impl Default for Flag {
    fn default() -> (f: Flag)
        ensures
            f == Flag::Unflagged,
    {
        Flag::Unflagged
    }
}

/// What the cull bar wants the app to do.
#[derive(Clone, Copy, PartialEq, Eq, Debug, Structural)]
pub struct CullAction {
    /// Rating or flag changed: persist it.
    pub changed: bool,
    /// Step this many photos through the folder (-1 back, +1 forward).
    pub step: isize,
}

impl Default for CullAction {
    fn default() -> (a: CullAction)
        ensures
            !a.changed,
            a.step == 0,
    {
        CullAction { changed: false, step: 0 }
    }
}

/// Result of clicking star number `star` when the photo has `rating`:
/// clicking the current rating steps it down by one, any other star sets it.
pub fn click_star(rating: u8, star: u8) -> (r: u8)
    requires
        1 <= star <= MAX_RATING,
    ensures
        r == (if rating == star { (star - 1) as u8 } else { star }),
{
    if rating == star {
        star - 1
    } else {
        star
    }
}

/// The flag a photo ends up with after `pressed` is applied to `current`:
/// pick and reject toggle (pressing the flag a photo already has clears it),
/// and `Unflagged` always clears.
pub open spec fn toggled(current: Flag, pressed: Flag) -> Flag {
    if pressed != Flag::Unflagged && current == pressed {
        Flag::Unflagged
    } else {
        pressed
    }
}

/// Apply a flag key or flag button to the photo's current flag.
pub fn toggle_flag(current: Flag, pressed: Flag) -> (r: Flag)
    ensures
        r == toggled(current, pressed),
{
    if pressed != Flag::Unflagged && current == pressed {
        Flag::Unflagged
    } else {
        pressed
    }
}

/// Pressing the same flag twice gives back the flag the photo started with,
/// whenever that flag was either unset or the one being pressed.
pub proof fn lemma_flag_toggle_twice(current: Flag, pressed: Flag)
    requires
        current == Flag::Unflagged || current == pressed,
    ensures
        toggled(toggled(current, pressed), pressed) == current,
{
}

/// Whether a photo carries any culling mark worth showing as a badge.
pub fn has_cull_mark(rating: u8, flag: Flag) -> (r: bool)
    ensures
        r == (rating > 0 || flag != Flag::Unflagged),
{
    rating > 0 || flag != Flag::Unflagged
}

/// A `u8` read as the `i8` with the same bits.
pub open spec fn as_signed(v: u8) -> int {
    if v < 128 {
        v as int
    } else {
        v as int - 256
    }
}

/// `x` held inside `lo..=hi`.
pub open spec fn clamp(x: int, lo: int, hi: int) -> int {
    if x < lo {
        lo
    } else if x > hi {
        hi
    } else {
        x
    }
}

/// Nudge a rating by `bump` stars (the `[` and `]` keys), held to 0..=5.
pub fn bump_rating(rating: u8, bump: i8) -> (r: u8)
    requires
        -128 <= as_signed(rating) + bump <= 127,
    ensures
        r as int == clamp(as_signed(rating) + bump, 0, MAX_RATING as int),
{
    let signed: i16 = if rating < 128 {
        rating as i16
    } else {
        rating as i16 - 256
    };
    let next: i16 = signed + bump as i16;
    if next < 0 {
        0
    } else if next > MAX_RATING as i16 {
        MAX_RATING
    } else {
        next as u8
    }
}

/// The photo index reached by stepping `delta` photos from `current` in a
/// folder of `len` photos. Stops at either end rather than wrapping.
pub fn step_selection(current: usize, delta: isize, len: usize) -> (r: usize)
    requires
        len > 0,
        len <= isize::MAX,
        current <= isize::MAX,
        isize::MIN <= current + delta <= isize::MAX,
    ensures
        r as int == clamp(current + delta, 0, len - 1),
        r < len,
{
    let last: isize = len as isize - 1;
    let next: isize = current as isize + delta;
    if next < 0 {
        0
    } else if next > last {
        last as usize
    } else {
        next as usize
    }
}

/// The keys the culling keyboard reacts to. A key event carries the keys it
/// matches: its logical key and its physical key, which can differ (shift+1
/// is logically `!` but physically the `1` key).
#[derive(Clone, Copy, PartialEq, Eq, Debug, Structural)]
pub enum CullKey {
    Z,
    Y,
    ArrowUp,
    ArrowLeft,
    ArrowDown,
    ArrowRight,
    /// The digit keys `0`..=`5`.
    Digit(u8),
    OpenBracket,
    CloseBracket,
    P,
    X,
    U,
}

/// One key press as the culling keyboard sees it.
#[derive(Clone, PartialEq, Eq, Debug)]
pub struct KeyEvent {
    /// Every culling key this press matches (logical and physical).
    pub keys: Vec<CullKey>,
    /// Ctrl (or Cmd) held.
    pub command: bool,
    pub shift: bool,
    /// An auto-repeat of a held key.
    pub repeat: bool,
}

/// What one frame's key presses ask for.
#[derive(Clone, Copy, PartialEq, Eq, Debug, Structural)]
pub struct CullInput {
    pub undo: bool,
    pub redo: bool,
    /// -1 back, +1 forward, 0 stay.
    pub nav: i8,
    /// The navigation came from a held (repeating) arrow.
    pub nav_held: bool,
    pub rating: Option<u8>,
    /// -1 / +1 from `[` / `]`, 0 for none.
    pub bump: i8,
    pub flag: Option<Flag>,
    /// Shift was held with a rating or flag key: move on afterwards.
    pub advance: bool,
}

pub open spec fn matches(e: KeyEvent, k: CullKey) -> bool {
    e.keys@.contains(k)
}

pub open spec fn no_input() -> CullInput {
    CullInput {
        undo: false,
        redo: false,
        nav: 0,
        nav_held: false,
        rating: Option::None,
        bump: 0,
        flag: Option::None,
        advance: false,
    }
}

/// The highest digit `0..=5` the event matches, if any (later digits in the
/// scan override earlier ones).
pub open spec fn digit_of(e: KeyEvent) -> Option<u8> {
    if matches(e, CullKey::Digit(5)) {
        Some(5u8)
    } else if matches(e, CullKey::Digit(4)) {
        Some(4u8)
    } else if matches(e, CullKey::Digit(3)) {
        Some(3u8)
    } else if matches(e, CullKey::Digit(2)) {
        Some(2u8)
    } else if matches(e, CullKey::Digit(1)) {
        Some(1u8)
    } else if matches(e, CullKey::Digit(0)) {
        Some(0u8)
    } else {
        Option::None
    }
}

/// The flag key the event matches, with `U` over `X` over `P`.
pub open spec fn flag_of(e: KeyEvent) -> Option<Flag> {
    if matches(e, CullKey::U) {
        Some(Flag::Unflagged)
    } else if matches(e, CullKey::X) {
        Some(Flag::Reject)
    } else if matches(e, CullKey::P) {
        Some(Flag::Pick)
    } else {
        Option::None
    }
}

/// How one key event updates what the frame asks for.
pub open spec fn with_event(acc: CullInput, e: KeyEvent) -> CullInput {
    if e.command {
        CullInput {
            undo: acc.undo || (matches(e, CullKey::Z) && !e.shift),
            redo: acc.redo || matches(e, CullKey::Y) || (matches(e, CullKey::Z) && e.shift),
            ..acc
        }
    } else {
        let back = matches(e, CullKey::ArrowUp) || matches(e, CullKey::ArrowLeft);
        let fwd = matches(e, CullKey::ArrowDown) || matches(e, CullKey::ArrowRight);
        let nav_acc = if back {
            CullInput { nav: -1i8, nav_held: acc.nav_held || e.repeat, ..acc }
        } else if fwd {
            CullInput { nav: 1i8, nav_held: acc.nav_held || e.repeat, ..acc }
        } else {
            acc
        };
        if e.repeat {
            nav_acc
        } else {
            let d = digit_of(e);
            let f = flag_of(e);
            CullInput {
                rating: if d is Some { d } else { nav_acc.rating },
                bump: if matches(e, CullKey::OpenBracket) {
                    -1i8
                } else if matches(e, CullKey::CloseBracket) {
                    1i8
                } else {
                    nav_acc.bump
                },
                flag: if f is Some { f } else { nav_acc.flag },
                advance: nav_acc.advance || ((d is Some || f is Some) && e.shift),
                ..nav_acc
            }
        }
    }
}

/// What a frame's key events ask for, taken in order.
pub open spec fn read_events(events: Seq<KeyEvent>) -> CullInput
    decreases events.len(),
{
    if events.len() == 0 {
        no_input()
    } else {
        with_event(read_events(events.drop_last()), events.last())
    }
}

fn has_key(e: &KeyEvent, k: CullKey) -> (r: bool)
    ensures
        r == matches(*e, k),
{
    let mut i: usize = 0;
    while i < e.keys.len()
        invariant
            i <= e.keys.len(),
            forall|j: int| 0 <= j < i ==> e.keys@[j] != k,
        decreases e.keys.len() - i,
    {
        if e.keys[i] == k {
            return true;
        }
        i += 1;
    }
    false
}

/// Fold a frame's key events into the culling request they make: Ctrl+Z
/// undoes, Ctrl+Y or Ctrl+Shift+Z redoes, arrows move, `0`..`5` rate, `[` and
/// `]` nudge the rating, `P` / `X` / `U` flag, and shift with a rating or flag
/// key advances to the next photo. Auto-repeats only navigate.
pub fn read_keys(events: &Vec<KeyEvent>) -> (r: CullInput)
    ensures
        r == read_events(events@),
{
    let mut acc = CullInput {
        undo: false,
        redo: false,
        nav: 0,
        nav_held: false,
        rating: None,
        bump: 0,
        flag: None,
        advance: false,
    };
    let mut i: usize = 0;
    while i < events.len()
        invariant
            i <= events.len(),
            acc == read_events(events@.take(i as int)),
        decreases events.len() - i,
    {
        proof {
            assert(events@.take(i + 1).drop_last() =~= events@.take(i as int));
        }
        let e = &events[i];
        if e.command {
            if has_key(e, CullKey::Z) && !e.shift {
                acc.undo = true;
            }
            if has_key(e, CullKey::Y) || (has_key(e, CullKey::Z) && e.shift) {
                acc.redo = true;
            }
        } else {
            if has_key(e, CullKey::ArrowUp) || has_key(e, CullKey::ArrowLeft) {
                acc.nav = -1;
                acc.nav_held = acc.nav_held || e.repeat;
            } else if has_key(e, CullKey::ArrowDown) || has_key(e, CullKey::ArrowRight) {
                acc.nav = 1;
                acc.nav_held = acc.nav_held || e.repeat;
            }
            if !e.repeat {
                let mut digit: Option<u8> = None;
                let mut n: u8 = 0;
                while n <= MAX_RATING
                    invariant
                        n <= MAX_RATING + 1,
                        digit == (if n == 0 {
                            Option::<u8>::None
                        } else {
                            digit_upto(*e, (n - 1) as u8)
                        }),
                    decreases MAX_RATING + 1 - n,
                {
                    if has_key(e, CullKey::Digit(n)) {
                        digit = Some(n);
                    }
                    n += 1;
                }
                proof {
                    lemma_digit_upto_five(*e);
                }
                if digit.is_some() {
                    acc.rating = digit;
                    acc.advance = acc.advance || e.shift;
                }
                if has_key(e, CullKey::OpenBracket) {
                    acc.bump = -1;
                } else if has_key(e, CullKey::CloseBracket) {
                    acc.bump = 1;
                }
                let mut flag: Option<Flag> = None;
                if has_key(e, CullKey::P) {
                    flag = Some(Flag::Pick);
                }
                if has_key(e, CullKey::X) {
                    flag = Some(Flag::Reject);
                }
                if has_key(e, CullKey::U) {
                    flag = Some(Flag::Unflagged);
                }
                if flag.is_some() {
                    acc.flag = flag;
                    acc.advance = acc.advance || e.shift;
                }
            }
        }
        i += 1;
    }
    proof {
        assert(events@.take(events@.len() as int) =~= events@);
    }
    acc
}

/// The highest digit among `0..=n` that the event matches.
pub open spec fn digit_upto(e: KeyEvent, n: u8) -> Option<u8>
    decreases n,
{
    if matches(e, CullKey::Digit(n)) {
        Some(n)
    } else if n == 0 {
        Option::None
    } else {
        digit_upto(e, (n - 1) as u8)
    }
}

proof fn lemma_digit_upto_five(e: KeyEvent)
    ensures
        digit_upto(e, 5) == digit_of(e),
{
    reveal_with_fuel(digit_upto, 6);
}

/// The rating and flag a photo ends up with after a frame's culling keys,
/// and what the app should do about it.
#[derive(Clone, Copy, PartialEq, Eq, Debug, Structural)]
pub struct MarkOutcome {
    pub rating: u8,
    pub flag: Flag,
    /// Something was set: persist the edit.
    pub edited: bool,
    /// Step on to the next photo.
    pub advance: bool,
}

/// The marks a photo ends up with after a frame's culling keys.
pub open spec fn marked(rating: u8, flag: Flag, input: CullInput, auto_advance: bool) -> MarkOutcome {
    let rated = match input.rating {
        Some(n) => n,
        Option::None => rating,
    };
    let bumped = if input.bump != 0 {
        clamp(as_signed(rated) + input.bump, 0, MAX_RATING as int) as u8
    } else {
        rated
    };
    MarkOutcome {
        rating: bumped,
        flag: match input.flag {
            Some(f) => toggled(flag, f),
            Option::None => flag,
        },
        edited: rated != rating || bumped != rated || input.flag is Some,
        advance: (input.rating is Some || input.flag is Some) && (input.advance || auto_advance),
    }
}

/// A rating within 0..=5 stays within 0..=5 whatever keys are pressed.
pub proof fn lemma_marks_keep_rating_in_range(
    rating: u8,
    flag: Flag,
    input: CullInput,
    auto_advance: bool,
)
    requires
        rating <= MAX_RATING,
        input.bump == -1 || input.bump == 0 || input.bump == 1,
        input.rating matches Some(n) ==> n <= MAX_RATING,
    ensures
        marked(rating, flag, input, auto_advance).rating <= MAX_RATING,
{
}

/// Apply the rating, nudge and flag keys of one frame to a photo's marks:
/// a digit sets the rating, a nudge moves the resulting rating within
/// 0..=5, a flag key toggles, and a rating or flag key moves on to the next
/// photo when shift was held or auto-advance is on.
pub fn apply_marks(rating: u8, flag: Flag, input: CullInput, auto_advance: bool) -> (r: MarkOutcome)
    requires
        input.bump == -1 || input.bump == 0 || input.bump == 1,
        input.rating matches Some(n) ==> n <= MAX_RATING,
        input.rating is None ==> -128 <= as_signed(rating) + input.bump <= 127,
    ensures
        r == marked(rating, flag, input, auto_advance),
{
    let mut out = MarkOutcome { rating, flag, edited: false, advance: false };
    let mut rated = false;
    if let Some(n) = input.rating {
        if out.rating != n {
            out.rating = n;
            out.edited = true;
        }
        rated = true;
    }
    if input.bump != 0 {
        let next = bump_rating(out.rating, input.bump);
        if out.rating != next {
            out.rating = next;
            out.edited = true;
        }
    }
    if let Some(f) = input.flag {
        out.flag = toggle_flag(out.flag, f);
        out.edited = true;
        rated = true;
    }
    out.advance = rated && (input.advance || auto_advance);
    out
}

/// What the last key event of a frame decides, key by key. A plain (not
/// Ctrl) event with an up or left arrow steps back (-1), one with a down or
/// right arrow and no back arrow steps forward (+1), and one with no arrow
/// leaves the step as the earlier events set it; an auto-repeat marks the
/// step as held. Ctrl+Z undoes and Ctrl+Y redoes; plain events never undo or
/// redo, and Ctrl events never move, rate or flag.
pub proof fn lemma_keys_navigate(before: Seq<KeyEvent>, e: KeyEvent)
    ensures
        ({
            let prev = read_events(before);
            let next = read_events(before.push(e));
            let k = e.keys@;
            let back = k.contains(CullKey::ArrowUp) || k.contains(CullKey::ArrowLeft);
            let fwd = k.contains(CullKey::ArrowDown) || k.contains(CullKey::ArrowRight);
            &&& !e.command && back ==> next.nav == -1
            &&& !e.command && !back && fwd ==> next.nav == 1
            &&& !e.command && !back && !fwd ==> next.nav == prev.nav && next.nav_held
                == prev.nav_held
            &&& !e.command && (back || fwd) ==> next.nav_held == (prev.nav_held || e.repeat)
            &&& !e.command ==> next.undo == prev.undo && next.redo == prev.redo
            &&& e.command && k.contains(CullKey::Z) && !e.shift ==> next.undo
            &&& e.command && (k.contains(CullKey::Y) || (k.contains(CullKey::Z) && e.shift))
                ==> next.redo
            &&& e.command && !k.contains(CullKey::Z) ==> next.undo == prev.undo
            &&& e.command && !k.contains(CullKey::Z) && !k.contains(CullKey::Y) ==> next.redo
                == prev.redo
            &&& e.command ==> next.nav == prev.nav && next.rating == prev.rating && next.flag
                == prev.flag && next.bump == prev.bump && next.advance == prev.advance
        }),
{
    assert(before.push(e).drop_last() =~= before);
}

/// What a plain, non-repeating key event does to the rating and flag keys
/// read so far: a digit key `n` asks for rating `n` (the highest digit
/// matched wins); `[` nudges down
/// and `]` up; `P`, `X` and `U` ask for pick, reject and no flag (a lone
/// one of them); shift with a rating or flag key asks to move on; an event
/// with none of these keys changes none of them. Auto-repeats never rate
/// or flag.
pub proof fn lemma_keys_mark(before: Seq<KeyEvent>, e: KeyEvent, n: u8)
    requires
        n <= MAX_RATING,
    ensures
        ({
            let prev = read_events(before);
            let next = read_events(before.push(e));
            let k = e.keys@;
            let digit = exists|d: u8| d <= MAX_RATING && k.contains(CullKey::Digit(d));
            let flagged = k.contains(CullKey::P) || k.contains(CullKey::X) || k.contains(
                CullKey::U,
            );
            &&& !e.command && !e.repeat && k.contains(CullKey::Digit(n)) && (forall|d: u8|
                n < d <= MAX_RATING ==> !k.contains(CullKey::Digit(d))) ==> next.rating == Some(n)
            &&& !e.command && !e.repeat && !digit ==> next.rating == prev.rating
            &&& !e.command && !e.repeat && k.contains(CullKey::OpenBracket) ==> next.bump == -1
            &&& !e.command && !e.repeat && !k.contains(CullKey::OpenBracket) && k.contains(
                CullKey::CloseBracket,
            ) ==> next.bump == 1
            &&& !e.command && !e.repeat && !k.contains(CullKey::OpenBracket) && !k.contains(
                CullKey::CloseBracket,
            ) ==> next.bump == prev.bump
            &&& !e.command && !e.repeat && k.contains(CullKey::P) && !k.contains(CullKey::X)
                && !k.contains(CullKey::U) ==> next.flag == Some(Flag::Pick)
            &&& !e.command && !e.repeat && k.contains(CullKey::X) && !k.contains(CullKey::U)
                ==> next.flag == Some(Flag::Reject)
            &&& !e.command && !e.repeat && k.contains(CullKey::U) ==> next.flag == Some(
                Flag::Unflagged,
            )
            &&& !e.command && !e.repeat && !flagged ==> next.flag == prev.flag
            &&& !e.command && !e.repeat && (digit || flagged) ==> next.advance == (prev.advance
                || e.shift)
            &&& !e.command && !e.repeat && !digit && !flagged ==> next.advance == prev.advance
            &&& !e.command && e.repeat ==> next.rating == prev.rating && next.flag == prev.flag
                && next.bump == prev.bump && next.advance == prev.advance
        }),
{
    assert(before.push(e).drop_last() =~= before);
    let k = e.keys@;
    let digit = exists|d: u8| d <= MAX_RATING && k.contains(CullKey::Digit(d));
    if !digit {
        assert(!k.contains(CullKey::Digit(0)) && !k.contains(CullKey::Digit(1)) && !k.contains(
            CullKey::Digit(2),
        ) && !k.contains(CullKey::Digit(3)) && !k.contains(CullKey::Digit(4)) && !k.contains(
            CullKey::Digit(5),
        ));
    } else {
        let d = choose|d: u8| d <= MAX_RATING && k.contains(CullKey::Digit(d));
        assert(digit_of(e) is Some) by {
            assert(k.contains(CullKey::Digit(d)));
            if d == 0 {} else if d == 1 {} else if d == 2 {} else if d == 3 {} else if d == 4 {} else {}
        }
    }
    if k.contains(CullKey::Digit(n)) && (forall|d: u8|
        n < d <= MAX_RATING ==> !k.contains(CullKey::Digit(d))) {
        assert(n >= 1 || !k.contains(CullKey::Digit(1)));
        assert(n >= 2 || !k.contains(CullKey::Digit(2)));
        assert(n >= 3 || !k.contains(CullKey::Digit(3)));
        assert(n >= 4 || !k.contains(CullKey::Digit(4)));
        assert(n >= 5 || !k.contains(CullKey::Digit(5)));
    }
}

/// What applying a frame's marks does to a photo, stated key by key: with
/// no rating, nudge or flag key nothing changes and nothing is saved; a
/// rating key without a nudge sets that rating; a nudge alone moves the
/// rating one star, held to 0..=5; pick and reject set their flag, or clear
/// it when the photo already has it; `U` clears the flag. Any flag key, and
/// any change of rating, is saved (`edited`), so a change is never lost;
/// nothing unchanged is saved unless a key asked for it. The photo moves on
/// only after a rating or flag key, with shift or auto-advance.
pub proof fn lemma_marks_by_key(rating: u8, flag: Flag, input: CullInput, auto_advance: bool)
    requires
        rating <= MAX_RATING,
        input.bump == -1 || input.bump == 0 || input.bump == 1,
        input.rating matches Some(n) ==> n <= MAX_RATING,
    ensures
        ({
            let r = marked(rating, flag, input, auto_advance);
            &&& input.rating is None && input.bump == 0 && input.flag is None ==> r
                == MarkOutcome { rating, flag, edited: false, advance: false }
            &&& input.rating is Some && input.bump == 0 ==> r.rating == input.rating->0
            &&& input.rating is None && input.bump == 1 ==> r.rating == (if rating
                < MAX_RATING {
                rating + 1
            } else {
                rating as int
            })
            &&& input.rating is None && input.bump == -1 ==> r.rating == (if rating > 0 {
                rating - 1
            } else {
                0
            })
            &&& input.flag is None ==> r.flag == flag
            &&& input.flag == Some(Flag::Pick) ==> r.flag == (if flag == Flag::Pick {
                Flag::Unflagged
            } else {
                Flag::Pick
            })
            &&& input.flag == Some(Flag::Reject) ==> r.flag == (if flag == Flag::Reject {
                Flag::Unflagged
            } else {
                Flag::Reject
            })
            &&& input.flag == Some(Flag::Unflagged) ==> r.flag == Flag::Unflagged
            &&& input.flag is Some ==> r.edited
            &&& r.rating != rating ==> r.edited
            &&& r.flag != flag ==> r.edited
            &&& r.edited ==> input.flag is Some || input.rating is Some || input.bump != 0
            &&& r.advance <==> (input.rating is Some || input.flag is Some) && (input.advance
                || auto_advance)
        }),
{
}

} // verus!
