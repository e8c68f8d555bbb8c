use core::str::FromStr;
use vstd::prelude::*;
use vstd::string::StrSliceExecFns;

verus! {

/// What a line typed by the user asks for.
#[derive(Debug, Clone, PartialEq, Eq)]
pub enum UIEvent {
    /// Leave the program.
    Exit,
    /// Send a text message.
    Message(String),
    /// Connect to the server at an address, under a display name.
    Connect { server_addr: String, user_name: String },
    /// Disconnect from the server.
    Disconnect,
}

/// The mathematical content of a [`UIEvent`].
pub enum UIEventView {
    Exit,
    Message(Seq<char>),
    Connect { server_addr: Seq<char>, user_name: Seq<char> },
    Disconnect,
}

impl View for UIEvent {
    type V = UIEventView;

    open spec fn view(&self) -> UIEventView {
        match self {
            UIEvent::Exit => UIEventView::Exit,
            UIEvent::Message(text) => UIEventView::Message(text@),
            UIEvent::Connect { server_addr, user_name } => UIEventView::Connect {
                server_addr: server_addr@,
                user_name: user_name@,
            },
            UIEvent::Disconnect => UIEventView::Disconnect,
        }
    }
}

/// Whether a character is white space: one of the twenty-five characters
/// that Unicode gives the property `White_Space`.
pub open spec fn is_space(c: char) -> bool {
    let u = c as u32;
    ||| 0x09 <= u <= 0x0d
    ||| u == 0x20
    ||| u == 0x85
    ||| u == 0xa0
    ||| u == 0x1680
    ||| 0x2000 <= u <= 0x200a
    ||| u == 0x2028
    ||| u == 0x2029
    ||| u == 0x202f
    ||| u == 0x205f
    ||| u == 0x3000
}

/// The first position from `from` on that holds no white space, or the length
/// of the line if there is none.
pub open spec fn word_start(line: Seq<char>, from: int) -> int
    decreases line.len() - from,
{
    if 0 <= from < line.len() && is_space(line[from]) {
        word_start(line, from + 1)
    } else {
        from
    }
}

/// The first position from `from` on that holds white space, or the length of
/// the line if there is none.
pub open spec fn word_end(line: Seq<char>, from: int) -> int
    decreases line.len() - from,
{
    if 0 <= from < line.len() && !is_space(line[from]) {
        word_end(line, from + 1)
    } else {
        from
    }
}

/// The next word of the line from `from` on, that is the next run of
/// characters other than white space, and the position behind it; or `None`
/// if only white space is left.
pub open spec fn next_word(line: Seq<char>, from: int) -> Option<(Seq<char>, int)> {
    let start = word_start(line, from);
    let end = word_end(line, start);
    if start < line.len() {
        Some((line.subrange(start, end), end))
    } else {
        None
    }
}

/// What a line means. A line that begins with `/` is a command: its first
/// word names it, `connect` takes the two words that follow as the address
/// and the display name, `disconnect` takes none, further words are ignored,
/// and anything else means nothing. Every other line is a message.
pub open spec fn meaning(line: Seq<char>) -> Option<UIEventView> {
    if line.len() > 0 && line[0] == '/' {
        match next_word(line, 1) {
            None => None,
            Some((command, after)) => if command == "connect"@ {
                match next_word(line, after) {
                    None => None,
                    Some((server_addr, behind)) => match next_word(line, behind) {
                        None => None,
                        Some((user_name, _)) => Some(
                            UIEventView::Connect { server_addr, user_name },
                        ),
                    },
                }
            } else if command == "disconnect"@ {
                Some(UIEventView::Disconnect)
            } else {
                None
            },
        }
    } else {
        Some(UIEventView::Message(line))
    }
}

/// Whether `c` is white space.
pub fn is_whitespace(c: char) -> (b: bool)
    ensures
        b == is_space(c),
{
    let u = c as u32;
    (0x09 <= u && u <= 0x0d) || u == 0x20 || u == 0x85 || u == 0xa0 || u == 0x1680 || (0x2000 <= u
        && u <= 0x200a) || u == 0x2028 || u == 0x2029 || u == 0x202f || u == 0x205f || u == 0x3000
}

/// The characters of `s`, one by one.
fn chars_of(s: &str) -> (chars: Vec<char>)
    ensures
        chars@ == s@,
{
    let mut chars: Vec<char> = Vec::new();
    for c in it: s.chars()
        invariant
            it.seq() == s@,
            chars@ == s@.take(it.index() as int),
    {
        chars.push(c);
    }
    assert(s@.take(s@.len() as int) == s@);
    chars
}

/// Finds the next word from `from` on: where it begins and where it ends.
fn find_word(line: &Vec<char>, from: usize) -> (res: Option<(usize, usize)>)
    requires
        from <= line@.len(),
    ensures
        match next_word(line@, from as int) {
            Some((word, end)) => res matches Some((a, b)) && a <= b == end <= line@.len()
                && word == line@.subrange(a as int, b as int),
            None => res is None,
        },
{
    let n = line.len();
    let mut start = from;
    while start < n && is_whitespace(line[start])
        invariant
            from <= start <= n == line@.len(),
            word_start(line@, from as int) == word_start(line@, start as int),
        decreases n - start,
    {
        start = start + 1;
    }
    if start == n {
        return None;
    }
    let mut end = start;
    while end < n && !is_whitespace(line[end])
        invariant
            start <= end <= n == line@.len(),
            word_end(line@, start as int) == word_end(line@, end as int),
        decreases n - end,
    {
        end = end + 1;
    }
    Some((start, end))
}

/// Whether the characters of `line` from `a` up to `b` spell `word`.
fn spells(line: &Vec<char>, a: usize, b: usize, word: &str) -> (res: bool)
    requires
        a <= b <= line@.len(),
    ensures
        res == (line@.subrange(a as int, b as int) == word@),
{
    let n = word.unicode_len();
    if b - a != n {
        return false;
    }
    let mut i: usize = 0;
    while i < n
        invariant
            i <= n == word@.len() == b - a,
            a <= b <= line@.len(),
            line@.subrange(a as int, a + i) == word@.take(i as int),
        decreases n - i,
    {
        if line[a + i] != word.get_char(i) {
            assert(line@.subrange(a as int, b as int)[i as int] != word@[i as int]);
            return false;
        }
        assert(line@.subrange(a as int, a + i + 1) == line@.subrange(a as int, a + i).push(
            line@[a + i],
        ));
        assert(word@.take(i + 1) == word@.take(i as int).push(word@[i as int]));
        i = i + 1;
    }
    assert(word@.take(n as int) == word@);
    true
}

impl UIEvent {
    /// Reads what a line typed by the user means, or `None` if it means
    /// nothing.
    pub fn parse(s: &str) -> (res: Option<UIEvent>)
        ensures
            match meaning(s@) {
                Some(v) => res matches Some(event) && event@ == v,
                None => res is None,
            },
    {
        let line = chars_of(s);
        if line.len() == 0 || line[0] != '/' {
            return Some(UIEvent::Message(s.to_owned()));
        }
        let (a, b) = match find_word(&line, 1) {
            Some(word) => word,
            None => {
                return None;
            },
        };
        if spells(&line, a, b, "connect") {
            let (addr_a, addr_b) = match find_word(&line, b) {
                Some(word) => word,
                None => {
                    return None;
                },
            };
            let (name_a, name_b) = match find_word(&line, addr_b) {
                Some(word) => word,
                None => {
                    return None;
                },
            };
            Some(
                UIEvent::Connect {
                    server_addr: s.substring_char(addr_a, addr_b).to_owned(),
                    user_name: s.substring_char(name_a, name_b).to_owned(),
                },
            )
        } else if spells(&line, a, b, "disconnect") {
            Some(UIEvent::Disconnect)
        } else {
            None
        }
    }
}

impl FromStr for UIEvent {
    type Err = ();

    fn from_str(s: &str) -> (res: Result<Self, ()>)
        ensures
            match meaning(s@) {
                Some(v) => res matches Ok(event) && event@ == v,
                None => res is Err,
            },
    {
        match UIEvent::parse(s) {
            Some(event) => Ok(event),
            None => Err(()),
        }
    }
}

} // verus!
