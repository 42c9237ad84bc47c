//! The game menu's choices and the state behind it.
use vstd::prelude::*;

verus! {

/// The ways to play a maze.
#[derive(Clone, Copy, Debug, PartialEq, Eq, Structural)]
pub enum Game {
    /// The whole maze is shown.
    Basic,
    /// Rooms show once seen; unseen ones show as silhouettes.
    Hidden,
    /// Only the rooms around the player show.
    Lantern,
}

/// How a game ended.
#[derive(Clone, Copy, Debug, PartialEq, Eq, Structural)]
pub enum Outcome {
    Win,
    Quit,
}

/// An entry of the menu.
#[derive(Clone, Copy, Debug, PartialEq, Eq, Structural)]
pub enum MenuChoice {
    Quit,
    Game(Game),
}

/// The entry at position `i` of the menu; every position past the games is "quit".
pub open spec fn choice_at(i: usize) -> MenuChoice {
    if i == 0 {
        MenuChoice::Game(Game::Basic)
    } else if i == 1 {
        MenuChoice::Game(Game::Hidden)
    } else if i == 2 {
        MenuChoice::Game(Game::Lantern)
    } else {
        MenuChoice::Quit
    }
}

impl From<usize> for MenuChoice {
    fn from(val: usize) -> (r: Self)
        ensures
            r == choice_at(val),
    {
        match val {
            0 => MenuChoice::Game(Game::Basic),
            1 => MenuChoice::Game(Game::Hidden),
            2 => MenuChoice::Game(Game::Lantern),
            _ => MenuChoice::Quit,
        }
    }
}

impl vstd::std_specs::convert::FromSpecImpl<usize> for MenuChoice {
    open spec fn obeys_from_spec() -> bool {
        true
    }

    open spec fn from_spec(v: usize) -> MenuChoice {
        choice_at(v)
    }
}

/// The menu: which entry is highlighted, which was picked, and how the last
/// game ended.
///
/// `selected` follows the list widget's selection: moving past either end
/// saturates, and the widget clamps an index past the last entry to the last
/// entry when it draws the menu.
#[derive(Debug)]
pub struct MenuState {
    pub selected: Option<usize>,
    pub choice: Option<MenuChoice>,
    pub prev_outcome: Option<Outcome>,
}

impl Default for MenuState {
    /// No game played yet, nothing picked, the first entry highlighted.
    fn default() -> (r: Self)
        ensures
            r.selected == Some(0usize),
            r.choice is None,
            r.prev_outcome is None,
    {
        MenuState { selected: Some(0), choice: None, prev_outcome: None }
    }
}

impl MenuState {
    /// Back to the menu after a game that ended with `outcome`.
    pub fn game_over(&mut self, outcome: Outcome)
        ensures
            final(self).choice is None,
            final(self).prev_outcome == Some(outcome),
            final(self).selected == Some(0usize),
    {
        self.choice = None;
        self.prev_outcome = Some(outcome);
        self.selected = Some(0);
    }

    pub fn unchoose(&mut self)
        ensures
            final(self).choice is None,
            final(self).selected == old(self).selected,
            final(self).prev_outcome == old(self).prev_outcome,
    {
        self.choice = None;
    }

    /// Picks the highlighted entry, if any.
    pub fn choose_selected(&mut self)
        ensures
            final(self).choice == (match old(self).selected {
                Some(i) => Some(choice_at(i)),
                None => None,
            }),
            final(self).selected == old(self).selected,
            final(self).prev_outcome == old(self).prev_outcome,
    {
        self.choice = match self.selected {
            Some(i) => Some(MenuChoice::from(i)),
            None => None,
        };
    }

    /// Highlights the entry above; with nothing highlighted, the last one.
    pub fn select_previous(&mut self)
        ensures
            final(self).selected == Some(
                match old(self).selected {
                    Some(i) => if i == 0 {
                        0usize
                    } else {
                        (i - 1) as usize
                    },
                    None => usize::MAX,
                },
            ),
            final(self).choice == old(self).choice,
            final(self).prev_outcome == old(self).prev_outcome,
    {
        let prev = match self.selected {
            Some(i) => if i == 0 {
                0
            } else {
                i - 1
            },
            None => usize::MAX,
        };
        self.selected = Some(prev);
    }

    /// Highlights the entry below; with nothing highlighted, the first one.
    pub fn select_next(&mut self)
        ensures
            final(self).selected == Some(
                match old(self).selected {
                    Some(i) => if i == usize::MAX {
                        usize::MAX
                    } else {
                        (i + 1) as usize
                    },
                    None => 0usize,
                },
            ),
            final(self).choice == old(self).choice,
            final(self).prev_outcome == old(self).prev_outcome,
    {
        let next = match self.selected {
            Some(i) => if i == usize::MAX {
                usize::MAX
            } else {
                i + 1
            },
            None => 0,
        };
        self.selected = Some(next);
    }

    /// Highlights the last entry, "quit".
    pub fn select_quit(&mut self)
        ensures
            final(self).selected == Some(usize::MAX),
            final(self).choice == old(self).choice,
            final(self).prev_outcome == old(self).prev_outcome,
    {
        self.selected = Some(usize::MAX);
    }

    /// Takes over the selection as the list widget left it after drawing.
    pub fn set_selected(&mut self, selected: Option<usize>)
        ensures
            final(self).selected == selected,
            final(self).choice == old(self).choice,
            final(self).prev_outcome == old(self).prev_outcome,
    {
        self.selected = selected;
    }

    /// The line that reports how the last game ended.
    pub fn outcome_msg(&self) -> (r: &'static str)
        ensures
            r@ == (match self.prev_outcome {
                None => ""@,
                Some(Outcome::Win) => "you won!"@,
                Some(Outcome::Quit) => "you quit"@,
            }),
    {
        match self.prev_outcome {
            None => "",
            Some(Outcome::Win) => "you won!",
            Some(Outcome::Quit) => "you quit",
        }
    }
}

} // verus!
