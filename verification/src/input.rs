//! Input mapping: terminal events, already decoded to plain values, are
//! turned into view commands through a small key buffer.

use vstd::prelude::*;

verus! {

/// A scrolling or selection direction.
#[derive(Debug, PartialEq, Eq, Structural, Clone, Copy)]
pub enum Direction {
    Up,
    Down,
}

/// A command a view executes.
#[derive(Debug, PartialEq, Eq, Structural, Clone, Copy)]
pub enum Controls {
    Quit,
    Resize(u16, u16),
    MoveSelect(Direction),
    Scroll(Direction, u16),
    Select,
    MouseSelect(u16, u16),
    GotoTop,
    Refresh,
}

/// Which view is currently shown.
#[derive(Debug, PartialEq, Eq, Structural, Clone, Copy)]
pub enum ViewKind {
    Feed,
    Article,
    Error,
}

/// A key, decoded to the cases the mapping distinguishes.
#[derive(Debug, PartialEq, Eq, Structural, Clone, Copy)]
pub enum Key {
    Char(char),
    Enter,
    Backspace,
    Up,
    Down,
    Other,
}

/// A terminal event, decoded to plain values.
#[derive(Debug, PartialEq, Eq, Structural, Clone, Copy)]
pub enum InputEvent {
    /// A key event; `press` is false for repeats and releases.
    KeyEvent { key: Key, ctrl: bool, press: bool },
    /// The terminal was resized to the given (width, height).
    Resize(u16, u16),
    MouseScrollUp,
    MouseScrollDown,
    /// A left click at the given (column, row).
    MouseLeftDown(u16, u16),
    MouseRightDown,
    Other,
}

/// Buffers typed characters so that multi-key commands can be recognized.
#[derive(Debug)]
pub struct InputBuffer {
    pub char_buffer: Vec<char>,
}

/// The command a character buffer stands for in a view, if any.
pub open spec fn map_key_spec(buf: Seq<char>, view: ViewKind) -> Option<Controls> {
    if buf == seq!['k'] && view is Feed {
        Some(Controls::MoveSelect(Direction::Up))
    } else if buf == seq!['k'] && view is Article {
        Some(Controls::Scroll(Direction::Up, 1))
    } else if buf == seq!['j'] && view is Feed {
        Some(Controls::MoveSelect(Direction::Down))
    } else if buf == seq!['j'] && view is Article {
        Some(Controls::Scroll(Direction::Down, 1))
    } else if buf == seq!['q'] {
        Some(Controls::Quit)
    } else if buf == seq!['g', 'g'] {
        Some(Controls::GotoTop)
    } else if buf == seq!['r'] && view is Feed {
        Some(Controls::Refresh)
    } else {
        None
    }
}

/// The command an event maps to, given the characters buffered so far.
pub open spec fn map_spec(buf: Seq<char>, event: InputEvent, view: ViewKind) -> Option<
    Controls,
> {
    match event {
        InputEvent::KeyEvent { key, ctrl, press } => {
            if !press {
                None
            } else {
                match key {
                    Key::Char(c) => if ctrl && c == 'c' {
                        Some(Controls::Quit)
                    } else {
                        map_key_spec(buf.push(c), view)
                    },
                    Key::Enter => if view is Feed {
                        Some(Controls::Select)
                    } else {
                        None
                    },
                    Key::Backspace => Some(Controls::Quit),
                    Key::Up => match view {
                        ViewKind::Feed => Some(Controls::MoveSelect(Direction::Up)),
                        ViewKind::Article => Some(Controls::Scroll(Direction::Up, 1)),
                        ViewKind::Error => None,
                    },
                    Key::Down => match view {
                        ViewKind::Feed => Some(Controls::MoveSelect(Direction::Down)),
                        ViewKind::Article => Some(Controls::Scroll(Direction::Down, 1)),
                        ViewKind::Error => None,
                    },
                    Key::Other => None,
                }
            }
        },
        InputEvent::Resize(w, h) => Some(Controls::Resize(w, h)),
        InputEvent::MouseScrollUp => match view {
            ViewKind::Article => Some(Controls::Scroll(Direction::Up, 3)),
            ViewKind::Feed => Some(Controls::MoveSelect(Direction::Up)),
            ViewKind::Error => None,
        },
        InputEvent::MouseScrollDown => match view {
            ViewKind::Article => Some(Controls::Scroll(Direction::Down, 3)),
            ViewKind::Feed => Some(Controls::MoveSelect(Direction::Down)),
            ViewKind::Error => None,
        },
        InputEvent::MouseLeftDown(column, row) => if view is Feed {
            Some(Controls::MouseSelect(column, row))
        } else {
            None
        },
        InputEvent::MouseRightDown => Some(Controls::Quit),
        InputEvent::Other => None,
    }
}

/// Whether handling the event consults (and so may change) the key buffer.
pub open spec fn event_buffers_char(event: InputEvent) -> Option<char> {
    match event {
        InputEvent::KeyEvent { key, ctrl, press } => match key {
            Key::Char(c) => if press && !(ctrl && c == 'c') {
                Some(c)
            } else {
                None
            },
            _ => None,
        },
        _ => None,
    }
}

impl InputBuffer {
    /// An empty buffer.
    pub fn new() -> (r: InputBuffer)
        ensures
            r.char_buffer@ == Seq::<char>::empty(),
    {
        InputBuffer { char_buffer: Vec::new() }
    }

    /// Empties the buffer.
    pub fn clear(&mut self)
        ensures
            final(self).char_buffer@ == Seq::<char>::empty(),
    {
        self.char_buffer.clear();
    }

    /// Buffers one typed character and looks the buffer up as a command; a
    /// recognized command empties the buffer.
    pub fn map_key(&mut self, c: char, view: ViewKind) -> (r: Option<Controls>)
        ensures
            r == map_key_spec(old(self).char_buffer@.push(c), view),
            r is Some ==> final(self).char_buffer@ == Seq::<char>::empty(),
            r is None ==> final(self).char_buffer@ == old(self).char_buffer@.push(c),
    {
        self.char_buffer.push(c);
        let ghost buf = self.char_buffer@;
        let len = self.char_buffer.len();
        let control: Option<Controls> = if len == 1 {
            let c0 = self.char_buffer[0];
            proof {
                if c0 == 'k' {
                    assert(buf =~= seq!['k']);
                }
                if c0 == 'j' {
                    assert(buf =~= seq!['j']);
                }
                if c0 == 'q' {
                    assert(buf =~= seq!['q']);
                }
                if c0 == 'r' {
                    assert(buf =~= seq!['r']);
                }
                assert(buf != seq!['g', 'g']);
            }
            match (c0, view) {
                ('k', ViewKind::Feed) => Some(Controls::MoveSelect(Direction::Up)),
                ('k', ViewKind::Article) => Some(Controls::Scroll(Direction::Up, 1)),
                ('j', ViewKind::Feed) => Some(Controls::MoveSelect(Direction::Down)),
                ('j', ViewKind::Article) => Some(Controls::Scroll(Direction::Down, 1)),
                ('q', _) => Some(Controls::Quit),
                ('r', ViewKind::Feed) => Some(Controls::Refresh),
                _ => None,
            }
        } else if len == 2 {
            let c0 = self.char_buffer[0];
            let c1 = self.char_buffer[1];
            proof {
                if c0 == 'g' && c1 == 'g' {
                    assert(buf =~= seq!['g', 'g']);
                }
                assert(buf != seq!['k'] && buf != seq!['j'] && buf != seq!['q'] && buf != seq![
                    'r',
                ]);
            }
            if c0 == 'g' && c1 == 'g' {
                Some(Controls::GotoTop)
            } else {
                None
            }
        } else {
            proof {
                assert(buf != seq!['k'] && buf != seq!['j'] && buf != seq!['q'] && buf != seq![
                    'r',
                ]);
                assert(buf != seq!['g', 'g']);
            }
            None
        };
        if control.is_some() {
            self.char_buffer.clear();
        }
        control
    }

    /// Maps one decoded terminal event to a command for the given view.
    pub fn map(&mut self, event: InputEvent, view: ViewKind) -> (r: Option<Controls>)
        ensures
            r == map_spec(old(self).char_buffer@, event, view),
            match event_buffers_char(event) {
                Some(c) => (r is Some ==> final(self).char_buffer@ == Seq::<char>::empty()) && (
                r is None ==> final(self).char_buffer@ == old(self).char_buffer@.push(c)),
                None => final(self).char_buffer@ == old(self).char_buffer@,
            },
    {
        match event {
            InputEvent::KeyEvent { key, ctrl, press } => {
                if !press {
                    return None;
                }
                match key {
                    Key::Char(c) => {
                        if ctrl && c == 'c' {
                            Some(Controls::Quit)
                        } else {
                            self.map_key(c, view)
                        }
                    },
                    Key::Enter => {
                        if let ViewKind::Feed = view {
                            Some(Controls::Select)
                        } else {
                            None
                        }
                    },
                    Key::Backspace => Some(Controls::Quit),
                    Key::Up => match view {
                        ViewKind::Feed => Some(Controls::MoveSelect(Direction::Up)),
                        ViewKind::Article => Some(Controls::Scroll(Direction::Up, 1)),
                        ViewKind::Error => None,
                    },
                    Key::Down => match view {
                        ViewKind::Feed => Some(Controls::MoveSelect(Direction::Down)),
                        ViewKind::Article => Some(Controls::Scroll(Direction::Down, 1)),
                        ViewKind::Error => None,
                    },
                    Key::Other => None,
                }
            },
            InputEvent::Resize(w, h) => Some(Controls::Resize(w, h)),
            InputEvent::MouseScrollUp => match view {
                ViewKind::Article => Some(Controls::Scroll(Direction::Up, 3)),
                ViewKind::Feed => Some(Controls::MoveSelect(Direction::Up)),
                ViewKind::Error => None,
            },
            InputEvent::MouseScrollDown => match view {
                ViewKind::Article => Some(Controls::Scroll(Direction::Down, 3)),
                ViewKind::Feed => Some(Controls::MoveSelect(Direction::Down)),
                ViewKind::Error => None,
            },
            InputEvent::MouseLeftDown(column, row) => {
                if let ViewKind::Feed = view {
                    Some(Controls::MouseSelect(column, row))
                } else {
                    None
                }
            },
            InputEvent::MouseRightDown => Some(Controls::Quit),
            InputEvent::Other => None,
        }
    }
}

} // verus!
