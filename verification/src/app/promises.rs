//! What keys and commands do, in the terms of the user: which photograph is
//! selected, what is asked of the disk, and what the window is told.
use crate::app::browse;
use crate::app::info;
use crate::app::menu::Command;
use crate::app::rating;
use crate::app::shortcuts;
use crate::app::shortcuts::{Key, KeyAction, Modifiers};
use crate::app::state;
use crate::app::state::{Act, Deed, Model};
use crate::browser::filter::PhotoFilter;
use crate::path;
use vstd::prelude::*;

verus! {

/// Whether an action changes or moves files, or looks for files to be moved.
pub open spec fn touches_files(act: Act) -> bool {
    act is Save || act is Undo || act is Move || act is Restore || act is Trash
        || act is CollectRejected
}

/// Whether nothing that was asked for is taken back, and nothing that touches files
/// is asked for.
pub open spec fn quiet(m: Model, n: Model) -> bool {
    &&& m.outbox.len() <= n.outbox.len()
    &&& forall|i: int| 0 <= i < m.outbox.len() ==> n.outbox[i] == m.outbox[i]
    &&& forall|i: int| m.outbox.len() <= i < n.outbox.len() ==> !touches_files(#[trigger] n.outbox[i])
}

/// Whether one action is asked for that touches files, and no other.
pub open spec fn asks_once(m: Model, n: Model, act: Act) -> bool {
    &&& m.outbox.len() <= n.outbox.len()
    &&& forall|i: int| 0 <= i < m.outbox.len() ==> n.outbox[i] == m.outbox[i]
    &&& exists|i: int|
        #![trigger n.outbox[i]]
        m.outbox.len() <= i < n.outbox.len() && n.outbox[i] == act && forall|j: int|
            m.outbox.len() <= j < n.outbox.len() && touches_files(#[trigger] n.outbox[j]) ==> j == i
}

/// Whether an action is asked for, whatever else is.
pub open spec fn asks(m: Model, n: Model, act: Act) -> bool {
    exists|i: int| m.outbox.len() <= i < n.outbox.len() && #[trigger] n.outbox[i] == act
}

/// What is left of the actions that can be undone once one more was remembered: the
/// last ninety-nine.
pub open spec fn made_room(history: Seq<(u64, Deed)>) -> Seq<(u64, Deed)> {
    if history.len() >= 100 {
        history.skip(history.len() - 99)
    } else {
        history
    }
}

proof fn lemma_asks_after(m: Model, s: Model, n: Model, act: Act)
    requires
        asks_once(m, s, act),
        touches_files(act),
        quiet(s, n),
    ensures
        asks_once(m, n, act),
{
    let i = choose|i: int|
        #![trigger s.outbox[i]]
        m.outbox.len() <= i < s.outbox.len() && s.outbox[i] == act && forall|j: int|
            m.outbox.len() <= j < s.outbox.len() && touches_files(#[trigger] s.outbox[j]) ==> j == i;
    assert(n.outbox[i] == act);
    assert forall|j: int|
        m.outbox.len() <= j < n.outbox.len() && touches_files(#[trigger] n.outbox[j]) implies j == i by {
        if j < s.outbox.len() {
            assert(touches_files(s.outbox[j]));
        }
    }
}

proof fn lemma_posted_once(m: Model, s: Model, act: Act)
    requires
        quiet(m, s),
        touches_files(act),
    ensures
        asks_once(m, s.posted(act), act),
{
    let n = s.posted(act);
    let i = s.outbox.len() as int;
    assert(n.outbox[i] == act);
    assert forall|j: int|
        m.outbox.len() <= j < n.outbox.len() && touches_files(#[trigger] n.outbox[j]) implies j == i by {
        if j < i {
            assert(n.outbox[j] == s.outbox[j]);
        }
    }
}

/// Saying something touches no file, nor the selection, the history or the list.
pub proof fn lemma_message(m: Model, text: Seq<char>)
    ensures
        quiet(m, m.message(text)),
        m.message(text).selection == m.selection,
        m.message(text).ledger == m.ledger,
        m.message(text).listing == m.listing,
        m.message(text).info == m.info,
        m.message(text).settings == m.settings,
        m.message(text).trash_busy == m.trash_busy,
        m.message(text).pending_move == m.pending_move,
        quiet(m, m.told()),
        m.told().selection == m.selection,
        m.told().ledger == m.ledger,
        m.told().listing == m.listing,
        m.told().info == m.info,
        m.told().settings == m.settings,
        m.told().trash_busy == m.trash_busy,
{
    reveal(Model::strip_shown);
}

/// Bringing the status line up to date asks for nothing that was asked for before to
/// be taken back.
pub proof fn lemma_told(m: Model)
    ensures
        m.told().outbox.len() >= m.outbox.len(),
        forall|i: int| 0 <= i < m.outbox.len() ==> #[trigger] m.told().outbox[i] == m.outbox[i],
        m.told().listing == m.listing,
        m.told().settings == m.settings,
        m.told().folder_epoch == m.folder_epoch,
{
    reveal(Model::strip_shown);
}

/// Right goes to the next photograph, Left to the one before; at either end the
/// selection stays.
pub proof fn law_arrows_step_through_the_list(m: Model)
    requires
        m.valid(),
        !m.quitting,
        !m.trash_busy,
        m.selection.index is Some,
    ensures
        ({
            let i = m.selection.index->0 as int;
            let (next, previous) = (m.keyed(KeyAction::Next), m.keyed(KeyAction::Previous));
            &&& next.listing == m.listing && previous.listing == m.listing
            &&& i + 1 < m.listing.files.len() ==> next.selection.index == Some((i + 1) as usize)
                && next.current() == Some(m.listing.files[i + 1])
            &&& i + 1 == m.listing.files.len() ==> next.selection.index == Some(i as usize)
            &&& i > 0 ==> previous.selection.index == Some((i - 1) as usize)
                && previous.current() == Some(m.listing.files[i - 1])
            &&& i == 0 ==> previous.selection.index == Some(i as usize)
        }),
{
    reveal(Model::keyed);
    reveal(Model::navigated);
    reveal(Model::requested);
}

/// The keys for next and previous are the arrows, and Shift with the space bar.
pub proof fn law_arrow_keys(modifiers: Modifiers, repeat: bool, fullscreen: bool)
    requires
        !modifiers.command,
        !modifiers.control,
        !modifiers.option,
    ensures
        shortcuts::action(Key::ArrowRight, modifiers, repeat, fullscreen) == KeyAction::Next,
        shortcuts::action(Key::ArrowLeft, modifiers, repeat, fullscreen) == KeyAction::Previous,
        modifiers.shift ==> shortcuts::action(Key::Space, modifiers, repeat, fullscreen)
            == KeyAction::Previous,
        !modifiers.shift && !repeat ==> shortcuts::action(
            Key::Space,
            modifiers,
            repeat,
            fullscreen,
        ) == KeyAction::MoveCurrent,
        !repeat ==> shortcuts::action(Key::Tab, modifiers, repeat, fullscreen) == KeyAction::Run(
            Command::Filmstrip,
        ),
{
}

/// A photograph that is picked is the selected one.
pub proof fn law_picked_photographs_are_selected(m: Model, index: usize)
    requires
        m.valid(),
        !m.quitting,
        !m.trash_busy,
        index < m.listing.files.len(),
    ensures
        m.picked(index).selection.index == Some(index),
        m.picked(index).current() == Some(m.listing.files[index as int]),
        m.picked(index).listing == m.listing,
        quiet(m, m.picked(index)),
{
    reveal(Model::picked);
    reveal(Model::requested);
}

/// Undo takes back the latest action, and leaves those before it: the rating of the
/// photograph that was rated last, or the move that was made last.
pub proof fn law_undo_takes_back_the_latest_action(m: Model, id: u64, deed: Deed)
    requires
        !m.quitting,
        !m.trash_busy,
        !m.rehearsal,
    ensures
        ({
            let n = m.remembered(id, deed);
            let u = n.undone();
            &&& u.ledger.history == made_room(m.ledger.history)
            &&& u.selection == m.selection
            &&& match deed {
                Deed::Rating(photo) => asks_once(
                    n,
                    u,
                    Act::Undo(m.session, photo, u.ledger.revision_sequence, id),
                ),
                Deed::Moved(records) => asks_once(n, u, Act::Restore(m.session, id, records)),
            }
        }),
{
    reveal(Model::remembered);
    reveal(Model::undone);
    reveal(Model::rating_undone);
    reveal(Model::move_undone);
    reveal(Model::edited);
    reveal(Model::mutation_begun);
    let n = m.remembered(id, deed);
    let h = m.ledger.history;
    assert(n.ledger.history.last() == (id, deed));
    assert(n.ledger.history.drop_last() =~= made_room(h));
    let s = Model {
        ledger: state::LedgerModel { history: n.ledger.history.drop_last(), ..n.ledger },
        ..n
    };
    match deed {
        Deed::Rating(photo) => {
            let t = s.touched();
            let v = (Model {
                ledger: state::LedgerModel {
                    undos: t.ledger.undos.insert(id, t.ledger.interaction),
                    ..t.ledger
                },
                ..t
            }).edited(path::tidy(photo), None);
            let act = Act::Undo(v.session, photo, v.ledger.revision_sequence, id);
            lemma_posted_once(n, v, act);
            lemma_message(v.posted(act), "Undoing last rating..."@);
            lemma_asks_after(
                n,
                v.posted(act),
                v.posted(act).message("Undoing last rating..."@),
                act,
            );
        },
        Deed::Moved(records) => {
            let v = s.mutation_begun(id);
            let act = Act::Restore(v.session, id, records);
            lemma_posted_once(n, v, act);
            lemma_message(v.posted(act), "Restoring photos from _Rejected..."@);
            lemma_asks_after(
                n,
                v.posted(act),
                v.posted(act).message("Restoring photos from _Rejected..."@),
                act,
            );
        },
    }
}

/// Undo, asked for twice, takes back the last action and then the one before it.
pub proof fn law_undo_goes_back_in_time(m: Model, first: (u64, Deed), second: (u64, Deed))
    requires
        !m.quitting,
        !m.trash_busy,
        !m.rehearsal,
        m.ledger.history.len() < 99,
    ensures
        m.remembered(first.0, first.1).remembered(second.0, second.1).undone().ledger.history
            == m.ledger.history.push(first),
{
    let n = m.remembered(first.0, first.1);
    assert(n.ledger.history == m.ledger.history.push(first) && !n.quitting && !n.trash_busy
        && !n.rehearsal) by {
        reveal(Model::remembered);
    }
    law_undo_takes_back_the_latest_action(n, second.0, second.1);
}

/// Following the filter touches no file and no rating.
pub proof fn lemma_refreshed(m: Model, preferred: Option<Seq<u8>>)
    ensures
        quiet(m, m.refreshed(preferred)),
        m.refreshed(preferred).info == m.info,
        m.refreshed(preferred).ledger == m.ledger,
        m.refreshed(preferred).settings == m.settings,
        m.refreshed(preferred).listing.all == m.listing.all,
        m.refreshed(preferred).listing.filter == m.listing.filter,
        m.refreshed(preferred).trash_busy == m.trash_busy,
{
    reveal(Model::refreshed);
    reveal(Model::followed);
    reveal(Model::relisted);
    reveal(Model::sifted);
    reveal(Model::renumbered);
    reveal(Model::reselected);
    reveal(Model::strip_shown);
}

/// A rating key saves that rating for the photograph on screen, and for no other;
/// it can be undone.
pub proof fn law_rating_keys_rate_the_photograph_on_screen(m: Model, stars: i8)
    requires
        !m.quitting,
        !m.trash_busy,
        !m.rehearsal,
        m.current() is Some,
        m.current_written() is Some,
        m.current() == m.screen.displayed,
    ensures
        ({
            let n = m.keyed(KeyAction::Rate(stars));
            let photo = m.current()->0;
            let edit = n.ledger.rating_sequence;
            &&& asks_once(
                m,
                n,
                Act::Save(
                    m.session,
                    m.current_written()->0,
                    n.ledger.revision_sequence,
                    stars,
                    edit,
                ),
            )
            &&& info::rating_of(n.info, photo) == Some(stars)
            &&& forall|other: Seq<u8>|
                other != photo ==> info::info_of(n.info, other) == #[trigger] info::info_of(
                    m.info,
                    other,
                )
            &&& n.ledger.history == made_room(m.ledger.history).push(
                (edit, Deed::Rating(m.current_written()->0)),
            )
            &&& edit != m.ledger.rating_sequence
            &&& n.ledger.revision_sequence != m.ledger.revision_sequence
        }),
{
    reveal(Model::keyed);
    reveal(Model::rated);
    reveal(Model::rating_kept);
    reveal(Model::edited);
    reveal(Model::remembered);
    let photo = m.current()->0;
    let written = m.current_written()->0;
    let kept = m.rating_kept(photo, written, stars);
    let edit = state::next(m.ledger.rating_sequence);
    let s = m.touched().numbered(edit).edited(photo, Some(stars));
    let act = Act::Save(s.session, written, s.ledger.revision_sequence, stars, edit);
    lemma_posted_once(m, s, act);
    assert(kept.outbox == s.posted(act).outbox);
    assert(asks_once(m, kept, act));
    let preferred = browse::destination(
        m.listing.files,
        m.selection.index,
        m.settings.auto_advance,
    );
    lemma_refreshed(kept, preferred);
    lemma_asks_after(m, kept, kept.refreshed(preferred), act);
    assert(rating::recent(m.ledger.history.push((edit, Deed::Rating(written)))) =~= made_room(
        m.ledger.history,
    ).push((edit, Deed::Rating(written))));
}

/// Digits rate with so many stars, and zero or U clears a rating. A key does so once.
pub proof fn law_digits_rate(key: Key, modifiers: Modifiers, fullscreen: bool, stars: i8)
    requires
        !modifiers.command,
        !modifiers.control,
        !modifiers.option,
        0 <= stars <= 5,
        key matches Key::Character(c) && c@.len() == 1 && c@[0] as int == '0' as int + stars,
    ensures
        shortcuts::action(key, modifiers, false, fullscreen) == KeyAction::Rate(stars),
        shortcuts::action(key, modifiers, true, fullscreen) == KeyAction::Nothing,
{
    lemma_characters(key);
}

/// What the letters ask for.
pub proof fn law_letters_act(key: Key, modifiers: Modifiers, fullscreen: bool)
    requires
        !modifiers.command,
        !modifiers.control,
        !modifiers.option,
        key matches Key::Character(c) && c@.len() == 1,
    ensures
        ({
            let c = (key->Character_0)@[0];
            let act = shortcuts::action(key, modifiers, false, fullscreen);
            &&& c == 'x' || c == 'X' ==> act == KeyAction::MoveCurrent
            &&& c == 'u' || c == 'U' ==> act == KeyAction::Rate(0)
            &&& c == 's' || c == 'S' || c == '+' || c == '=' ==> act == KeyAction::ZoomIn
            &&& c == 'd' || c == 'D' || c == '-' || c == '_' ==> act == KeyAction::ZoomOut
            &&& c == 'z' || c == 'Z' ==> act == KeyAction::ToggleFitActual
            &&& c == 'p' || c == 'P' ==> act == KeyAction::Peek
            &&& c == 'f' || c == 'F' ==> act == KeyAction::Fullscreen
            &&& c == 'l' || c == 'L' ==> act == KeyAction::Run(Command::ZoomLock)
            &&& c == 'a' || c == 'A' ==> act == KeyAction::Run(Command::AutoAdvance)
            &&& (c == 'c' || c == 'C') && !modifiers.shift ==> act == KeyAction::Run(Command::Pin)
            &&& (c == 'c' || c == 'C') && modifiers.shift ==> act == KeyAction::Run(
                Command::ReplacePin,
            )
            &&& c == ']' ==> act == KeyAction::Run(Command::Brighten)
            &&& c == '[' ==> act == KeyAction::Run(Command::Darken)
            &&& c == '\\' ==> act == KeyAction::Run(Command::ResetBrightness)
        }),
{
    lemma_characters(key);
}

/// A key with a single character is told by that character.
proof fn lemma_characters(key: Key)
    requires
        key matches Key::Character(c) && c@.len() == 1,
    ensures
        ({
            let c = (key->Character_0)@[0];
            &&& shortcuts::space(key) == (c == ' ')
            &&& shortcuts::typed(key, "x"@, "X"@) == (c == 'x' || c == 'X')
            &&& shortcuts::typed(key, "u"@, "U"@) == (c == 'u' || c == 'U')
            &&& shortcuts::typed(key, "0"@, "0"@) == (c == '0')
            &&& shortcuts::typed(key, "1"@, "1"@) == (c == '1')
            &&& shortcuts::typed(key, "2"@, "2"@) == (c == '2')
            &&& shortcuts::typed(key, "3"@, "3"@) == (c == '3')
            &&& shortcuts::typed(key, "4"@, "4"@) == (c == '4')
            &&& shortcuts::typed(key, "5"@, "5"@) == (c == '5')
            &&& shortcuts::typed(key, "f"@, "F"@) == (c == 'f' || c == 'F')
            &&& shortcuts::typed(key, "l"@, "L"@) == (c == 'l' || c == 'L')
            &&& shortcuts::typed(key, "a"@, "A"@) == (c == 'a' || c == 'A')
            &&& shortcuts::typed(key, "c"@, "C"@) == (c == 'c' || c == 'C')
            &&& shortcuts::typed(key, "p"@, "P"@) == (c == 'p' || c == 'P')
            &&& shortcuts::typed(key, "z"@, "Z"@) == (c == 'z' || c == 'Z')
            &&& shortcuts::typed(key, "+"@, "="@) == (c == '+' || c == '=')
            &&& shortcuts::typed(key, "-"@, "_"@) == (c == '-' || c == '_')
            &&& shortcuts::typed(key, "s"@, "S"@) == (c == 's' || c == 'S')
            &&& shortcuts::typed(key, "d"@, "D"@) == (c == 'd' || c == 'D')
            &&& shortcuts::typed(key, "["@, "]"@) == (c == '[' || c == ']')
            &&& shortcuts::typed(key, "]"@, "]"@) == (c == ']')
            &&& shortcuts::typed(key, "["@, "["@) == (c == '[')
            &&& shortcuts::typed(key, "\\"@, "\\"@) == (c == '\\')
        }),
{
    reveal_strlit(" ");
    reveal_strlit("x");
    reveal_strlit("X");
    reveal_strlit("u");
    reveal_strlit("U");
    reveal_strlit("0");
    reveal_strlit("1");
    reveal_strlit("2");
    reveal_strlit("3");
    reveal_strlit("4");
    reveal_strlit("5");
    reveal_strlit("f");
    reveal_strlit("F");
    reveal_strlit("l");
    reveal_strlit("L");
    reveal_strlit("a");
    reveal_strlit("A");
    reveal_strlit("c");
    reveal_strlit("C");
    reveal_strlit("p");
    reveal_strlit("P");
    reveal_strlit("z");
    reveal_strlit("Z");
    reveal_strlit("+");
    reveal_strlit("=");
    reveal_strlit("-");
    reveal_strlit("_");
    reveal_strlit("s");
    reveal_strlit("S");
    reveal_strlit("d");
    reveal_strlit("D");
    reveal_strlit("[");
    reveal_strlit("]");
    reveal_strlit("\\");
    let t = (key->Character_0)@;
    lemma_one_character(t, " "@);
    lemma_one_character(t, "x"@);
    lemma_one_character(t, "X"@);
    lemma_one_character(t, "u"@);
    lemma_one_character(t, "U"@);
    lemma_one_character(t, "0"@);
    lemma_one_character(t, "1"@);
    lemma_one_character(t, "2"@);
    lemma_one_character(t, "3"@);
    lemma_one_character(t, "4"@);
    lemma_one_character(t, "5"@);
    lemma_one_character(t, "f"@);
    lemma_one_character(t, "F"@);
    lemma_one_character(t, "l"@);
    lemma_one_character(t, "L"@);
    lemma_one_character(t, "a"@);
    lemma_one_character(t, "A"@);
    lemma_one_character(t, "c"@);
    lemma_one_character(t, "C"@);
    lemma_one_character(t, "p"@);
    lemma_one_character(t, "P"@);
    lemma_one_character(t, "z"@);
    lemma_one_character(t, "Z"@);
    lemma_one_character(t, "+"@);
    lemma_one_character(t, "="@);
    lemma_one_character(t, "-"@);
    lemma_one_character(t, "_"@);
    lemma_one_character(t, "s"@);
    lemma_one_character(t, "S"@);
    lemma_one_character(t, "d"@);
    lemma_one_character(t, "D"@);
    lemma_one_character(t, "["@);
    lemma_one_character(t, "]"@);
    lemma_one_character(t, "\\"@);
}

proof fn lemma_one_character(t: Seq<char>, u: Seq<char>)
    requires
        t.len() == 1,
        u.len() == 1,
    ensures
        t == u <==> t[0] == u[0],
{
    if t[0] == u[0] {
        assert(t =~= u);
    }
}

/// Space or X asks for the photograph on screen, and no other, to be moved away; and
/// nothing else is moved or rated until that is done.
pub proof fn law_the_photograph_on_screen_is_moved(m: Model)
    requires
        !m.quitting,
        !m.trash_busy,
        !m.rehearsal,
        m.current() is Some,
        m.current_written() is Some,
        m.current() == m.screen.displayed,
    ensures
        ({
            let n = m.keyed(KeyAction::MoveCurrent);
            &&& asks_once(
                m,
                n,
                Act::Move(
                    m.session,
                    n.ledger.rating_sequence,
                    seq![m.current_written()->0],
                ),
            )
            &&& n.trash_busy
            &&& n.awaits(n.ledger.rating_sequence)
            &&& n.ledger.rating_sequence != m.ledger.rating_sequence
            &&& n.selection == m.selection
            &&& n.info == m.info
        }),
{
    reveal(Model::keyed);
    reveal(Model::current_moved);
    reveal(Model::moving);
    reveal(Model::mutation_begun);
    let id = state::next(m.ledger.rating_sequence);
    let s = m.numbered(id).mutation_begun(id);
    let act = Act::Move(s.session, id, seq![m.current_written()->0]);
    lemma_posted_once(m, s, act);
    lemma_message(s.posted(act), "Moving to _Rejected..."@);
    lemma_asks_after(m, s.posted(act), s.posted(act).message("Moving to _Rejected..."@), act);
}

/// Brightness goes up and down by one step, up to nine steps from the middle, and
/// back to the middle; the window is told.
pub proof fn law_brightness_steps(m: Model)
    requires
        !m.quitting,
        -9 <= m.settings.brightness_steps <= 9,
    ensures
        ({
            let b = m.settings.brightness_steps;
            let (up, down, back) = (
                m.commanded(Command::Brighten),
                m.commanded(Command::Darken),
                m.commanded(Command::ResetBrightness),
            );
            &&& b < 9 ==> up.settings.brightness_steps == b + 1 && asks(
                m,
                up,
                Act::Brightness((b + 1) as i8),
            )
            &&& b == 9 ==> up.settings.brightness_steps == 9
            &&& b > -9 ==> down.settings.brightness_steps == b - 1 && asks(
                m,
                down,
                Act::Brightness((b - 1) as i8),
            )
            &&& b == -9 ==> down.settings.brightness_steps == -9
            &&& back.settings.brightness_steps == 0
            &&& b != 0 ==> asks(m, back, Act::Brightness(0))
            &&& quiet(m, up) && quiet(m, down) && quiet(m, back)
            &&& up.selection == m.selection && down.selection == m.selection
        }),
{
    reveal(Model::commanded);
    reveal(Model::brightened);
    reveal(Model::strip_shown);
    let b = m.settings.brightness_steps;
    let i = m.outbox.len() as int;
    if b < 9 {
        assert(m.commanded(Command::Brighten).outbox[i] == Act::Brightness((b + 1) as i8));
    }
    if b > -9 {
        assert(m.commanded(Command::Darken).outbox[i] == Act::Brightness((b - 1) as i8));
    }
    if b != 0 {
        assert(m.commanded(Command::ResetBrightness).outbox[i] == Act::Brightness(0));
    }
}

/// Keeping zoom and advancing after a rating are switched on and off; the window is
/// told, and both are remembered.
pub proof fn law_switches_switch(m: Model)
    requires
        !m.quitting,
    ensures
        ({
            let (zoom, auto, strip) = (
                m.commanded(Command::ZoomLock),
                m.commanded(Command::AutoAdvance),
                m.commanded(Command::Filmstrip),
            );
            &&& zoom.settings.zoom_locked == !m.settings.zoom_locked
            &&& zoom.settings.auto_advance == m.settings.auto_advance
            &&& asks(m, zoom, Act::PreserveView(!m.settings.zoom_locked))
            &&& exists|i: int|
                m.outbox.len() <= i < zoom.outbox.len() && (
                #[trigger] zoom.outbox[i] matches Act::Preferences(kept, _, _) && kept == Some(
                    !m.settings.zoom_locked,
                ))
            &&& auto.settings.auto_advance == !m.settings.auto_advance
            &&& auto.settings.zoom_locked == m.settings.zoom_locked
            &&& exists|i: int|
                m.outbox.len() <= i < auto.outbox.len() && (
                #[trigger] auto.outbox[i] matches Act::Preferences(_, kept, _) && kept == Some(
                    !m.settings.auto_advance,
                ))
            &&& strip.strip.visible == !m.strip.visible
            &&& asks(m, strip, Act::StripVisible(!m.strip.visible))
            &&& zoom.selection == m.selection && auto.selection == m.selection && strip.selection
                == m.selection
            &&& zoom.info == m.info && auto.info == m.info && strip.info == m.info
        }),
{
    reveal(Model::commanded);
    reveal(Model::zoom_toggled);
    reveal(Model::advance_toggled);
    reveal(Model::strip_toggled);
    reveal(Model::strip_shown);
    let i = m.outbox.len() as int;
    assert(m.commanded(Command::ZoomLock).outbox[i + 1] == Act::PreserveView(
        !m.settings.zoom_locked,
    ));
    assert(m.commanded(Command::ZoomLock).outbox[i + 2] is Preferences);
    assert(m.commanded(Command::AutoAdvance).outbox[i] is Preferences);
    lemma_strip_toggled(m);
}

proof fn lemma_strip_toggled(m: Model)
    ensures
        m.strip_toggled().strip.visible == !m.strip.visible,
        m.strip_toggled().selection == m.selection,
        m.strip_toggled().info == m.info,
        asks(m, m.strip_toggled(), Act::StripVisible(!m.strip.visible)),
{
    reveal(Model::strip_toggled);
    reveal(Model::strip_shown);
    reveal(Model::armed);
    reveal(Model::started);
    reveal(Model::thumbnails_asked);
    let i = m.outbox.len() as int;
    assert(m.strip_toggled().outbox[i + 2] == Act::StripVisible(!m.strip.visible));
}

/// Zoom and view commands are handed to the window as they are, and change nothing
/// else.
pub proof fn law_view_commands_reach_the_window(m: Model)
    requires
        !m.quitting,
    ensures
        m.keyed(KeyAction::ZoomIn) == m.posted(Act::Zoom(true)),
        m.keyed(KeyAction::ZoomOut) == m.posted(Act::Zoom(false)),
        m.keyed(KeyAction::ToggleFitActual) == m.posted(Act::ToggleFit),
        m.keyed(KeyAction::Fullscreen) == m.posted(Act::Fullscreen),
        m.commanded(Command::Fullscreen) == m.posted(Act::Fullscreen),
        m.commanded(Command::Fit) == m.posted(Act::Fit),
        m.commanded(Command::Fill) == m.posted(Act::Fill),
        m.commanded(Command::Actual) == m.posted(Act::ActualSize),
        m.commanded(Command::Help) == m.posted(Act::Help),
        !m.trash_busy ==> asks(m, m.commanded(Command::Open), Act::PickFolder),
{
    reveal(Model::keyed);
    reveal(Model::commanded);
    assert(m.commanded(Command::Open).trash_busy || m.commanded(Command::Open).outbox[m.outbox.len() as int]
        == Act::PickFolder);
}

/// A command in the menu and the key for it do the same.
pub proof fn law_keys_run_commands(m: Model, command: Command)
    requires
        !m.quitting,
    ensures
        m.keyed(KeyAction::Run(command)) == m.commanded(command),
        m.keyed(KeyAction::MoveCurrent) == m.commanded(Command::MoveDeletedCurrent),
        m.keyed(KeyAction::Fullscreen) == m.commanded(Command::Fullscreen),
        m.keyed(KeyAction::Nothing) == m,
{
    reveal(Model::keyed);
    reveal(Model::commanded);
}

/// Another filter is the filter, and the list then holds the photographs of the
/// folder that it shows, and only those.
pub proof fn law_filters_decide_what_is_listed(m: Model, filter: PhotoFilter, i: int)
    requires
        !m.quitting,
        !m.trash_busy,
        m.listing.whole ==> m.listing.files == m.listing.all,
        0 <= i < m.listing.all.len(),
    ensures
        ({
            let n = m.filtered(filter);
            let photo = m.listing.all[i];
            &&& n.listing.filter == filter
            &&& n.listing.all == m.listing.all
            &&& n.info == m.info
            &&& filter == PhotoFilter::All ==> n.listing.files == m.listing.all
            &&& filter != PhotoFilter::All ==> (n.listing.files.contains(photo) <==> filter.shows(
                info::rating_of(m.info, photo),
            ))
        }),
{
    reveal(Model::filtered);
    reveal(Model::index_begun);
    let t = m.touched();
    let s = t.with_listing(state::ListingModel { filter, ..t.listing }).index_begun();
    lemma_refreshed(s, m.current());
    browse::law_lists_follow_the_filter(s, m.current());
    let r = s.refreshed(m.current());
    reveal(Model::visible);
    let all = m.listing.all;
    let ratings = browse::ratings_of(m.info, all);
    crate::browser::filter::law_filters_keep_what_they_show(all, ratings, filter, all.len() as int, all[i]);
    let photo = all[i];
    assert(ratings[i] == info::rating_of(m.info, photo));
    if crate::browser::filter::shown(all, ratings, filter, all.len() as int).contains(photo) {
        let k = choose|k: int| 0 <= k < all.len() && all[k] == photo && filter.shows(ratings[k]);
        assert(ratings[k] == info::rating_of(m.info, photo));
    }
}

/// What the keys without a letter ask for: Tab for the filmstrip, Escape to leave full
/// screen or to fit, the space bar to move a photograph away, or back one with Shift.
/// Keys with Command, Control or Option ask for nothing here.
pub proof fn law_other_keys_act(key: Key, modifiers: Modifiers, repeat: bool, fullscreen: bool)
    ensures
        ({
            let act = shortcuts::action(key, modifiers, repeat, fullscreen);
            let plain = !modifiers.command && !modifiers.control && !modifiers.option;
            &&& !plain ==> act == KeyAction::Nothing
            &&& plain && key is Tab && !repeat ==> act == KeyAction::Run(Command::Filmstrip)
            &&& plain && key is Tab && repeat ==> act == KeyAction::Nothing
            &&& plain && key is Escape && fullscreen ==> act == KeyAction::Fullscreen
            &&& plain && key is Escape && !fullscreen ==> act == KeyAction::Run(Command::Fit)
            &&& plain && key is Space && modifiers.shift ==> act == KeyAction::Previous
            &&& plain && key is Space && !modifiers.shift && !repeat ==> act
                == KeyAction::MoveCurrent
            &&& plain && key is Space && !modifiers.shift && repeat ==> act == KeyAction::Nothing
        }),
{
}

/// Zoom and brightness go on while their keys are held; nothing else that a letter
/// asks for does.
pub proof fn law_held_keys_zoom(key: Key, modifiers: Modifiers, fullscreen: bool)
    requires
        !modifiers.command,
        !modifiers.control,
        !modifiers.option,
        key matches Key::Character(c) && c@.len() == 1,
    ensures
        ({
            let c = (key->Character_0)@[0];
            let act = shortcuts::action(key, modifiers, true, fullscreen);
            &&& c == 's' || c == 'S' || c == '+' || c == '=' ==> act == KeyAction::ZoomIn
            &&& c == 'd' || c == 'D' || c == '-' || c == '_' ==> act == KeyAction::ZoomOut
            &&& c == ']' ==> act == KeyAction::Run(Command::Brighten)
            &&& c == '[' ==> act == KeyAction::Run(Command::Darken)
            &&& act is Rate ==> false
            &&& act is MoveCurrent ==> false
        }),
{
    lemma_characters(key);
}

/// What the commands of the menu do, in the words of the other laws.
pub proof fn law_commands_do_what_they_say(m: Model, filter: PhotoFilter)
    requires
        !m.quitting,
    ensures
        m.commanded(Command::Filter(filter)) == m.filtered(filter),
        m.commanded(Command::UndoRating) == m.undone(),
        m.commanded(Command::Pin) == m.pin_changed(false),
        m.commanded(Command::ReplacePin) == m.pin_changed(true),
        m.commanded(Command::MoveDeletedCurrent) == m.keyed(KeyAction::MoveCurrent),
        m.commanded(Command::Quit) == m.leaving(),
{
    reveal(Model::commanded);
    reveal(Model::keyed);
}

/// To move the rejected photographs of a folder away, they are looked for among all
/// of its photographs, once it is listed; nothing is moved before they are found.
pub proof fn law_rejects_are_sought_in_the_whole_folder(m: Model)
    requires
        !m.quitting,
        !m.trash_busy,
        !m.rehearsal,
        !m.listing.scanning,
    ensures
        ({
            let n = m.commanded(Command::MoveDeletedRejected);
            &&& asks_once(m, n, Act::CollectRejected(m.session, m.listing.all_written))
            &&& n.trash_busy
            &&& n.selection == m.selection
            &&& n.info == m.info
        }),
{
    reveal(Model::commanded);
    reveal(Model::rejects_moved);
    reveal(Model::rejects_sought);
    let s = Model { deleted_batch: true, trash_busy: true, ..m };
    let act = Act::CollectRejected(s.session, m.listing.all_written);
    lemma_posted_once(m, s, act);
    lemma_message(s.posted(act), "Checking saved rejects..."@);
    lemma_asks_after(m, s.posted(act), s.posted(act).message("Checking saved rejects..."@), act);
}

/// Before photographs that were found are moved away or put in the trash, the user is
/// asked: about all of them, and about no others.
pub proof fn law_the_user_is_asked_before_photographs_go(m: Model, photos: Seq<Seq<u8>>)
    requires
        photos.len() > 0,
    ensures
        ({
            let n = m.rejects_found(m.session, Ok(photos));
            &&& m.deleted_batch ==> n == m.posted(Act::AskMove(photos))
            &&& !m.deleted_batch ==> n == m.posted(Act::AskTrash(photos))
            &&& quiet(m, n)
        }),
{
    reveal(Model::rejects_found);
}

} // verus!
