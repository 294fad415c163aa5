//! Mapping key presses to actions of the interactive views.
use vstd::prelude::*;

verus! {

/// Which screen of a view is showing: the table, or the detail of the
/// row with the given position.
#[derive(Debug, Clone, Copy, PartialEq, Eq, Structural)]
pub enum AppMode {
    Browse,
    Detail(usize),
}

/// What a key asks the view to do.
#[derive(Debug, Clone, Copy, PartialEq, Eq, Structural)]
pub enum Action {
    MoveUp,
    MoveDown,
    CycleSort,
    ReverseSort,
    CycleFilter,
    Enter,
    Back,
    Quit,
    NoOp,
}

/// The keys the views tell apart.
#[derive(Debug, Clone, Copy, PartialEq, Eq, Structural)]
pub enum Key {
    Char(char),
    Up,
    Down,
    Enter,
    Esc,
    Other,
}

/// A key event: the key, whether Control was held, and whether the key
/// went down (as opposed to repeating or going up).
#[derive(Debug, Clone, Copy, PartialEq, Eq, Structural)]
pub struct KeyInput {
    pub key: Key,
    pub control: bool,
    pub pressed: bool,
}

/// The action a key event asks for in a mode. Only key presses count;
/// Control-C quits anywhere; the table takes navigation keys, and the
/// detail screen only closes.
pub open spec fn key_action(input: KeyInput, mode: AppMode) -> Action {
    if !input.pressed {
        Action::NoOp
    } else if input.control && input.key == Key::Char('c') {
        Action::Quit
    } else {
        match mode {
            AppMode::Browse => match input.key {
                Key::Char('k') | Key::Up => Action::MoveUp,
                Key::Char('j') | Key::Down => Action::MoveDown,
                Key::Char('s') => Action::CycleSort,
                Key::Char('r') => Action::ReverseSort,
                Key::Char('f') => Action::CycleFilter,
                Key::Enter => Action::Enter,
                Key::Char('q') | Key::Esc => Action::Quit,
                _ => Action::NoOp,
            },
            AppMode::Detail(_) => match input.key {
                Key::Char('q') | Key::Esc | Key::Enter => Action::Back,
                _ => Action::NoOp,
            },
        }
    }
}

/// The action a key event asks for in the given mode.
pub fn handle_key_event(input: KeyInput, mode: &AppMode) -> (r: Action)
    ensures
        r == key_action(input, *mode),
{
    if !input.pressed {
        return Action::NoOp;
    }
    if input.control {
        if let Key::Char(c) = input.key {
            if c == 'c' {
                return Action::Quit;
            }
        }
    }
    match mode {
        AppMode::Browse => match input.key {
            Key::Char(c) => {
                if c == 'k' {
                    Action::MoveUp
                } else if c == 'j' {
                    Action::MoveDown
                } else if c == 's' {
                    Action::CycleSort
                } else if c == 'r' {
                    Action::ReverseSort
                } else if c == 'f' {
                    Action::CycleFilter
                } else if c == 'q' {
                    Action::Quit
                } else {
                    Action::NoOp
                }
            },
            Key::Up => Action::MoveUp,
            Key::Down => Action::MoveDown,
            Key::Enter => Action::Enter,
            Key::Esc => Action::Quit,
            Key::Other => Action::NoOp,
        },
        AppMode::Detail(_) => match input.key {
            Key::Char(c) => {
                if c == 'q' {
                    Action::Back
                } else {
                    Action::NoOp
                }
            },
            Key::Esc | Key::Enter => Action::Back,
            _ => Action::NoOp,
        },
    }
}

/// Control-C quits whatever the mode.
pub proof fn law_control_c_quits(mode: AppMode)
    ensures
        key_action(KeyInput { key: Key::Char('c'), control: true, pressed: true }, mode)
            == Action::Quit,
{
}

/// A key that did not go down does nothing, whatever the key and mode.
pub proof fn law_release_ignored(input: KeyInput, mode: AppMode)
    requires
        !input.pressed,
    ensures
        key_action(input, mode) == Action::NoOp,
{
}

/// On the detail screen a key either closes it, quits, or does nothing.
pub proof fn law_detail_only_closes(input: KeyInput, row: usize)
    ensures
        key_action(input, AppMode::Detail(row)) == Action::Back
            || key_action(input, AppMode::Detail(row)) == Action::Quit
            || key_action(input, AppMode::Detail(row)) == Action::NoOp,
{
}

} // verus!
