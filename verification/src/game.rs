use vstd::prelude::*;
use rand::rngs::ThreadRng;
use crate::grid::{in_grid, Field};
use crate::lines::is_direction;
use crate::push::pushed;
use crate::spawn::{fresh_game, lemma_spawn_consistent, spawn_of};

verus! {

/// The code of a key, as the window system reports it.
#[derive(Debug, Clone, Copy, PartialEq, Eq, Structural)]
pub struct KeyCode(pub usize);

/// The codes of the keys that the game knows: the space bar, the digits of
/// the number pad and the letters.
pub const KEY_SPACE: usize = 0x20;

pub const KEY_NUMPAD1: usize = 0x61;

pub const KEY_NUMPAD2: usize = 0x62;

pub const KEY_NUMPAD3: usize = 0x63;

pub const KEY_NUMPAD4: usize = 0x64;

pub const KEY_NUMPAD5: usize = 0x65;

pub const KEY_NUMPAD6: usize = 0x66;

pub const KEY_NUMPAD7: usize = 0x67;

pub const KEY_NUMPAD8: usize = 0x68;

pub const KEY_NUMPAD9: usize = 0x69;

pub const KEY_A: usize = 0x41;

pub const KEY_B: usize = 0x42;

pub const KEY_C: usize = 0x43;

pub const KEY_D: usize = 0x44;

pub const KEY_E: usize = 0x45;

pub const KEY_F: usize = 0x46;

pub const KEY_G: usize = 0x47;

pub const KEY_H: usize = 0x48;

pub const KEY_I: usize = 0x49;

pub const KEY_J: usize = 0x4A;

pub const KEY_K: usize = 0x4B;

pub const KEY_L: usize = 0x4C;

pub const KEY_M: usize = 0x4D;

pub const KEY_N: usize = 0x4E;

pub const KEY_O: usize = 0x4F;

pub const KEY_P: usize = 0x50;

pub const KEY_Q: usize = 0x51;

pub const KEY_R: usize = 0x52;

pub const KEY_S: usize = 0x53;

pub const KEY_T: usize = 0x54;

pub const KEY_U: usize = 0x55;

pub const KEY_V: usize = 0x56;

pub const KEY_W: usize = 0x57;

pub const KEY_X: usize = 0x58;

pub const KEY_Y: usize = 0x59;

pub const KEY_Z: usize = 0x5A;

/// The direction `(dx, dy)` in which a key pushes, if it pushes: the keys of
/// the number pad by their place on it, and the letters round S by theirs.
pub open spec fn key_direction(code: int) -> Option<(int, int)> {
    if code == KEY_NUMPAD1 || code == KEY_Z {
        Some((-1, 1))
    } else if code == KEY_NUMPAD2 || code == KEY_X {
        Some((0, 1))
    } else if code == KEY_NUMPAD3 || code == KEY_C {
        Some((1, 1))
    } else if code == KEY_NUMPAD4 || code == KEY_A {
        Some((-1, 0))
    } else if code == KEY_NUMPAD6 || code == KEY_D {
        Some((1, 0))
    } else if code == KEY_NUMPAD7 || code == KEY_Q {
        Some((-1, -1))
    } else if code == KEY_NUMPAD8 || code == KEY_W {
        Some((0, -1))
    } else if code == KEY_NUMPAD9 || code == KEY_E {
        Some((1, -1))
    } else {
        None
    }
}

/// The direction in which a key pushes, if it pushes.
pub fn direction_of(key_code: KeyCode) -> (dir: Option<(i32, i32)>)
    ensures
        match dir {
            Some((dx, dy)) => key_direction(key_code.0 as int) == Some((dx as int, dy as int))
                && is_direction(dx as int, dy as int),
            None => key_direction(key_code.0 as int).is_none(),
        },
{
    let code = key_code.0;
    if code == KEY_NUMPAD1 || code == KEY_Z {
        Some((-1, 1))
    } else if code == KEY_NUMPAD2 || code == KEY_X {
        Some((0, 1))
    } else if code == KEY_NUMPAD3 || code == KEY_C {
        Some((1, 1))
    } else if code == KEY_NUMPAD4 || code == KEY_A {
        Some((-1, 0))
    } else if code == KEY_NUMPAD6 || code == KEY_D {
        Some((1, 0))
    } else if code == KEY_NUMPAD7 || code == KEY_Q {
        Some((-1, -1))
    } else if code == KEY_NUMPAD8 || code == KEY_W {
        Some((0, -1))
    } else if code == KEY_NUMPAD9 || code == KEY_E {
        Some((1, -1))
    } else {
        None
    }
}

/// `rand::thread_rng`: the generator of the calling thread. Nothing is
/// claimed of it.
#[verifier::external_body]
pub(crate) fn new_rng() -> ThreadRng {
    rand::thread_rng()
}

/// A game: its field, and the generator that its new tiles are drawn from.
pub struct Application2048 {
    pub field: Field,
    pub rng: ThreadRng,
}

/// Whether a key changes a field with the grid `g` and the flag `over`:
/// the space key once the game is over, and a direction key during the game
/// where its push changes the grid.
pub open spec fn key_acts(code: int, g: Seq<Seq<int>>, over: bool) -> bool {
    if code == KEY_SPACE {
        over
    } else {
        match key_direction(code) {
            Some((dx, dy)) => !over && pushed(g, dx, dy) != g,
            None => false,
        }
    }
}

/// What a key makes of a field, `g` and `over` before, `h` and `h_over`
/// after. The space key starts a new game once the game is over. A
/// direction key pushes while the game goes on, and where that changes the
/// grid a new tile follows. In every other case the field stays as it is.
pub open spec fn key_effect(
    code: int,
    g: Seq<Seq<int>>,
    over: bool,
    h: Seq<Seq<int>>,
    h_over: bool,
) -> bool {
    if !key_acts(code, g, over) {
        h == g && h_over == over
    } else if code == KEY_SPACE {
        fresh_game(h) && !h_over
    } else {
        let d = key_direction(code).unwrap();
        spawn_of(pushed(g, d.0, d.1), false, h, h_over)
    }
}

impl Default for Application2048 {
    /// An empty field of a game that has not ended, with the generator of
    /// the calling thread.
    fn default() -> (app: Application2048)
        ensures
            forall|y: int, x: int| in_grid(y, x) ==> #[trigger] app.field.grid()[y][x] == 0,
            !app.field.game_over,
    {
        Application2048 { field: Field::new(), rng: new_rng() }
    }
}

impl Application2048 {
    /// A new game, with the generator of the calling thread.
    pub fn new() -> (app: Application2048)
        ensures
            fresh_game(app.field.grid()),
            !app.field.game_over,
            app.field.in_range(),
            app.field.all_tiles(),
            app.field.consistent(),
    {
        let mut rng = new_rng();
        let mut field = Field::new();
        field.new_game(&mut rng);
        Application2048 { rng, field }
    }

    /// Handles a key: see `key_effect`. `must_repaint` is set where the
    /// key changed the field, and `must_close` is left as it is.
    pub fn on_key_down(
        &mut self,
        key_code: KeyCode,
        must_repaint: &mut bool,
        _must_close: &mut bool,
    )
        requires
            old(self).field.in_range(),
        ensures
            key_effect(
                key_code.0 as int,
                old(self).field.grid(),
                old(self).field.game_over,
                final(self).field.grid(),
                final(self).field.game_over,
            ),
            *final(must_repaint) == (*old(must_repaint) || key_acts(
                key_code.0 as int,
                old(self).field.grid(),
                old(self).field.game_over,
            )),
            *final(_must_close) == *old(_must_close),
            old(self).field.all_tiles() ==> final(self).field.all_tiles(),
            old(self).field.consistent() ==> final(self).field.consistent(),
    {
        if key_code.0 == KEY_SPACE {
            if self.field.game_over {
                self.field.new_game(&mut self.rng);
                *must_repaint = true;
            }
        } else {
            match direction_of(key_code) {
                Some((dx, dy)) => {
                    if !self.field.game_over && self.field.push_dir(dx, dy) {
                        proof {
                            lemma_spawn_consistent(self.field.grid());
                        }
                        self.field.add_item(&mut self.rng);
                        *must_repaint = true;
                    }
                },
                None => {},
            }
        }
    }
}

} // verus!
