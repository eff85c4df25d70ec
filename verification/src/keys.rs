//! Where a key press goes: to the path editor, the directory filter, the
//! command palette, or one of the window-wide shortcuts.

use vstd::prelude::*;
use crate::text::{same_text, typed_text, is_typed};

verus! {

/// Which line editor receives a key.
pub enum Editor {
    PathBar,
    Filter,
    Palette,
}

/// What a line editor does with a key.
pub enum LineKey {
    Cancel,
    Submit,
    Up,
    Down,
    Backspace,
    Copy,
    Paste,
    Type(String),
    Ignore,
}

/// The meaning of a `LineKey`, with typed text as characters.
pub enum LineAct {
    Cancel,
    Submit,
    Up,
    Down,
    Backspace,
    Copy,
    Paste,
    Type(Seq<char>),
    Ignore,
}

impl View for LineKey {
    type V = LineAct;

    open spec fn view(&self) -> LineAct {
        match self {
            LineKey::Cancel => LineAct::Cancel,
            LineKey::Submit => LineAct::Submit,
            LineKey::Up => LineAct::Up,
            LineKey::Down => LineAct::Down,
            LineKey::Backspace => LineAct::Backspace,
            LineKey::Copy => LineAct::Copy,
            LineKey::Paste => LineAct::Paste,
            LineKey::Type(s) => LineAct::Type(s@),
            LineKey::Ignore => LineAct::Ignore,
        }
    }
}

/// A key press in a line editor: `key` is the key's name, `cmd` whether
/// Command is held, `typed` the text it produces, if any. Escape cancels and
/// Enter submits everywhere; the palette also takes the arrows, the path bar
/// also Cmd+C; Cmd+V pastes; other Command chords are ignored; otherwise
/// typed text without control characters is inserted.
pub open spec fn line_act(ed: Editor, key: Seq<char>, cmd: bool, typed: Option<Seq<char>>) -> LineAct {
    if key == "escape"@ {
        LineAct::Cancel
    } else if key == "enter"@ {
        LineAct::Submit
    } else if ed is Palette && key == "down"@ {
        LineAct::Down
    } else if ed is Palette && key == "up"@ {
        LineAct::Up
    } else if key == "backspace"@ {
        LineAct::Backspace
    } else if ed is PathBar && cmd && key == "c"@ {
        LineAct::Copy
    } else if cmd && key == "v"@ {
        LineAct::Paste
    } else if cmd {
        LineAct::Ignore
    } else {
        match typed {
            Some(t) if is_typed(t) => LineAct::Type(t),
            _ => LineAct::Ignore,
        }
    }
}

/// What every line editor does with its keys: Escape cancels and Enter
/// submits whatever is held or typed, Backspace deletes, Cmd+V pastes, the
/// arrows move the palette's selection, Cmd+C copies the path bar, and a
/// plain key with printable text types it.
pub proof fn law_line_editor_keys(ed: Editor, cmd: bool, typed: Option<Seq<char>>)
    ensures
        line_act(ed, "escape"@, cmd, typed) == LineAct::Cancel,
        line_act(ed, "enter"@, cmd, typed) == LineAct::Submit,
        line_act(ed, "backspace"@, cmd, typed) == LineAct::Backspace,
        line_act(ed, "v"@, true, typed) == LineAct::Paste,
        line_act(Editor::Palette, "down"@, cmd, typed) == LineAct::Down,
        line_act(Editor::Palette, "up"@, cmd, typed) == LineAct::Up,
        line_act(Editor::PathBar, "c"@, true, typed) == LineAct::Copy,
        typed matches Some(t) ==> (is_typed(t) ==> line_act(ed, "v"@, false, typed) == LineAct::Type(t)),
{
    reveal_strlit("escape");
    assert("escape"@.len() == 6);
    assert("escape"@[0] == 'e');
    assert("escape"@[1] == 's');
    assert("escape"@[2] == 'c');
    assert("escape"@[3] == 'a');
    assert("escape"@[4] == 'p');
    assert("escape"@[5] == 'e');
    reveal_strlit("enter");
    assert("enter"@.len() == 5);
    assert("enter"@[0] == 'e');
    assert("enter"@[1] == 'n');
    assert("enter"@[2] == 't');
    assert("enter"@[3] == 'e');
    assert("enter"@[4] == 'r');
    reveal_strlit("down");
    assert("down"@.len() == 4);
    assert("down"@[0] == 'd');
    assert("down"@[1] == 'o');
    assert("down"@[2] == 'w');
    assert("down"@[3] == 'n');
    reveal_strlit("up");
    assert("up"@.len() == 2);
    assert("up"@[0] == 'u');
    assert("up"@[1] == 'p');
    reveal_strlit("backspace");
    assert("backspace"@.len() == 9);
    assert("backspace"@[0] == 'b');
    assert("backspace"@[1] == 'a');
    assert("backspace"@[2] == 'c');
    assert("backspace"@[3] == 'k');
    assert("backspace"@[4] == 's');
    assert("backspace"@[5] == 'p');
    assert("backspace"@[6] == 'a');
    assert("backspace"@[7] == 'c');
    assert("backspace"@[8] == 'e');
    reveal_strlit("c");
    assert("c"@.len() == 1);
    assert("c"@[0] == 'c');
    reveal_strlit("v");
    assert("v"@.len() == 1);
    assert("v"@[0] == 'v');
    reveal_strlit("p");
    assert("p"@.len() == 1);
    assert("p"@[0] == 'p');
    reveal_strlit("t");
    assert("t"@.len() == 1);
    assert("t"@[0] == 't');
    reveal_strlit("w");
    assert("w"@.len() == 1);
    assert("w"@[0] == 'w');
    reveal_strlit("/");
    assert("/"@.len() == 1);
    assert("/"@[0] == '/');
}

/// Where a key goes: an open path editor takes every key before an open
/// filter, which takes every key before the window's shortcuts; so Enter
/// commits the path being edited, or else the filter; Cmd+P, Cmd+T and
/// Cmd+W toggle the palette, open and close a tab when no editor is open;
/// Escape closes an open context menu; `/` opens the filter while the
/// palette is closed; with the palette open, Enter goes to it.
pub proof fn law_key_routing(c: KeyContext, cmd: bool, typed: Option<Seq<char>>)
    ensures
        c.editing_path ==> command_act(c, "enter"@, cmd, typed) == CommandAct::PathBar(LineAct::Submit),
        c.editing_path ==> command_act(c, "escape"@, cmd, typed) == CommandAct::PathBar(LineAct::Cancel),
        !c.editing_path && c.filtering ==> command_act(c, "enter"@, cmd, typed) == CommandAct::Filter(
            LineAct::Submit,
        ),
        !c.editing_path && c.filtering ==> command_act(c, "escape"@, cmd, typed) == CommandAct::Filter(
            LineAct::Cancel,
        ),
        !c.editing_path && !c.filtering ==> command_act(c, "p"@, true, typed) == CommandAct::TogglePalette,
        !c.editing_path && !c.filtering ==> command_act(c, "t"@, true, typed) == CommandAct::NewTab,
        !c.editing_path && !c.filtering ==> command_act(c, "w"@, true, typed) == CommandAct::CloseTab,
        !c.editing_path && !c.filtering && c.menu_open ==> command_act(c, "escape"@, cmd, typed)
            == CommandAct::CloseMenu,
        !c.editing_path && !c.filtering && !c.palette_open ==> command_act(c, "/"@, false, typed)
            == CommandAct::OpenFilter,
        !c.editing_path && !c.filtering && c.palette_open ==> command_act(c, "enter"@, cmd, typed)
            == CommandAct::Palette(LineAct::Submit),
{
    reveal_strlit("escape");
    assert("escape"@.len() == 6);
    assert("escape"@[0] == 'e');
    assert("escape"@[1] == 's');
    assert("escape"@[2] == 'c');
    assert("escape"@[3] == 'a');
    assert("escape"@[4] == 'p');
    assert("escape"@[5] == 'e');
    reveal_strlit("enter");
    assert("enter"@.len() == 5);
    assert("enter"@[0] == 'e');
    assert("enter"@[1] == 'n');
    assert("enter"@[2] == 't');
    assert("enter"@[3] == 'e');
    assert("enter"@[4] == 'r');
    reveal_strlit("down");
    assert("down"@.len() == 4);
    assert("down"@[0] == 'd');
    assert("down"@[1] == 'o');
    assert("down"@[2] == 'w');
    assert("down"@[3] == 'n');
    reveal_strlit("up");
    assert("up"@.len() == 2);
    assert("up"@[0] == 'u');
    assert("up"@[1] == 'p');
    reveal_strlit("backspace");
    assert("backspace"@.len() == 9);
    assert("backspace"@[0] == 'b');
    assert("backspace"@[1] == 'a');
    assert("backspace"@[2] == 'c');
    assert("backspace"@[3] == 'k');
    assert("backspace"@[4] == 's');
    assert("backspace"@[5] == 'p');
    assert("backspace"@[6] == 'a');
    assert("backspace"@[7] == 'c');
    assert("backspace"@[8] == 'e');
    reveal_strlit("c");
    assert("c"@.len() == 1);
    assert("c"@[0] == 'c');
    reveal_strlit("v");
    assert("v"@.len() == 1);
    assert("v"@[0] == 'v');
    reveal_strlit("p");
    assert("p"@.len() == 1);
    assert("p"@[0] == 'p');
    reveal_strlit("t");
    assert("t"@.len() == 1);
    assert("t"@[0] == 't');
    reveal_strlit("w");
    assert("w"@.len() == 1);
    assert("w"@[0] == 'w');
    reveal_strlit("/");
    assert("/"@.len() == 1);
    assert("/"@[0] == '/');
}

pub fn line_key(ed: Editor, key: &str, cmd: bool, typed: Option<&str>) -> (r: LineKey)
    ensures
        r@ == line_act(
            ed,
            key@,
            cmd,
            match typed {
                Some(t) => Some(t@),
                None => None,
            },
        ),
{
    if same_text(key, "escape") {
        return LineKey::Cancel;
    }
    if same_text(key, "enter") {
        return LineKey::Submit;
    }
    let palette = match ed {
        Editor::Palette => true,
        _ => false,
    };
    if palette && same_text(key, "down") {
        return LineKey::Down;
    }
    if palette && same_text(key, "up") {
        return LineKey::Up;
    }
    if same_text(key, "backspace") {
        return LineKey::Backspace;
    }
    let path_bar = match ed {
        Editor::PathBar => true,
        _ => false,
    };
    if path_bar && cmd && same_text(key, "c") {
        return LineKey::Copy;
    }
    if cmd && same_text(key, "v") {
        return LineKey::Paste;
    }
    if cmd {
        return LineKey::Ignore;
    }
    match typed {
        Some(t) => {
            if typed_text(t) {
                LineKey::Type(t.to_owned())
            } else {
                LineKey::Ignore
            }
        },
        None => LineKey::Ignore,
    }
}

/// What a key press does in the main window.
pub enum KeyCommand {
    PathBar(LineKey),
    Filter(LineKey),
    TogglePalette,
    NewTab,
    CloseTab,
    CloseMenu,
    OpenFilter,
    Palette(LineKey),
    Ignore,
}

pub enum CommandAct {
    PathBar(LineAct),
    Filter(LineAct),
    TogglePalette,
    NewTab,
    CloseTab,
    CloseMenu,
    OpenFilter,
    Palette(LineAct),
    Ignore,
}

impl View for KeyCommand {
    type V = CommandAct;

    open spec fn view(&self) -> CommandAct {
        match self {
            KeyCommand::PathBar(k) => CommandAct::PathBar(k@),
            KeyCommand::Filter(k) => CommandAct::Filter(k@),
            KeyCommand::TogglePalette => CommandAct::TogglePalette,
            KeyCommand::NewTab => CommandAct::NewTab,
            KeyCommand::CloseTab => CommandAct::CloseTab,
            KeyCommand::CloseMenu => CommandAct::CloseMenu,
            KeyCommand::OpenFilter => CommandAct::OpenFilter,
            KeyCommand::Palette(k) => CommandAct::Palette(k@),
            KeyCommand::Ignore => CommandAct::Ignore,
        }
    }
}

/// What the UI is doing when a key arrives.
pub struct KeyContext {
    /// The active tab's path bar is being edited.
    pub editing_path: bool,
    /// The active tab's filter is open.
    pub filtering: bool,
    pub menu_open: bool,
    pub palette_open: bool,
}

/// Routing of a key press: an open path editor, then an open filter, take
/// every key; otherwise Cmd+P toggles the palette, Cmd+T opens and Cmd+W
/// closes a tab, Escape closes an open context menu; with the palette
/// closed only `/` (without Command) does something, opening the filter;
/// with it open the palette takes the key.
pub open spec fn command_act(c: KeyContext, key: Seq<char>, cmd: bool, typed: Option<Seq<char>>) -> CommandAct {
    if c.editing_path {
        CommandAct::PathBar(line_act(Editor::PathBar, key, cmd, typed))
    } else if c.filtering {
        CommandAct::Filter(line_act(Editor::Filter, key, cmd, typed))
    } else if cmd && key == "p"@ {
        CommandAct::TogglePalette
    } else if cmd && key == "t"@ {
        CommandAct::NewTab
    } else if cmd && key == "w"@ {
        CommandAct::CloseTab
    } else if key == "escape"@ && c.menu_open {
        CommandAct::CloseMenu
    } else if !c.palette_open {
        if !cmd && key == "/"@ {
            CommandAct::OpenFilter
        } else {
            CommandAct::Ignore
        }
    } else {
        CommandAct::Palette(line_act(Editor::Palette, key, cmd, typed))
    }
}

pub fn key_command(c: KeyContext, key: &str, cmd: bool, typed: Option<&str>) -> (r: KeyCommand)
    ensures
        r@ == command_act(
            c,
            key@,
            cmd,
            match typed {
                Some(t) => Some(t@),
                None => None,
            },
        ),
{
    if c.editing_path {
        return KeyCommand::PathBar(line_key(Editor::PathBar, key, cmd, typed));
    }
    if c.filtering {
        return KeyCommand::Filter(line_key(Editor::Filter, key, cmd, typed));
    }
    if cmd && same_text(key, "p") {
        return KeyCommand::TogglePalette;
    }
    if cmd && same_text(key, "t") {
        return KeyCommand::NewTab;
    }
    if cmd && same_text(key, "w") {
        return KeyCommand::CloseTab;
    }
    if c.menu_open && same_text(key, "escape") {
        return KeyCommand::CloseMenu;
    }
    if !c.palette_open {
        if !cmd && same_text(key, "/") {
            return KeyCommand::OpenFilter;
        }
        return KeyCommand::Ignore;
    }
    KeyCommand::Palette(line_key(Editor::Palette, key, cmd, typed))
}

} // verus!
