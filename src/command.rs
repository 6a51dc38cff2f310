//! The client's command line: `/create`, `/join`, `/send`, `/leave`, `/exit`
//! and `/help`, and plain text, which is sent to the joined chat.
use vstd::prelude::*;
use vstd::string::*;

verus! {

/// The value of the UUID that the text spells, if it spells one.
pub uninterp spec fn uuid_value(s: Seq<char>) -> Option<u128>;

pub open spec fn is_hex_digit(c: char) -> bool {
    ('0' <= c <= '9') || ('a' <= c <= 'f') || ('A' <= c <= 'F')
}

pub open spec fn hex_digit_value(c: char) -> nat {
    if '0' <= c <= '9' {
        (c as u32 - '0' as u32) as nat
    } else if 'a' <= c <= 'f' {
        (c as u32 - 'a' as u32 + 10) as nat
    } else {
        (c as u32 - 'A' as u32 + 10) as nat
    }
}

/// The number that a string of hex digits spells, most significant first.
pub open spec fn hex_value(d: Seq<char>) -> nat
    decreases d.len(),
{
    if d.len() == 0 {
        0
    } else {
        hex_value(d.drop_last()) * 16 + hex_digit_value(d.last())
    }
}

/// The 32 hex digits of the hyphenated form `8-4-4-4-12`.
pub open spec fn hyphenated_digits(s: Seq<char>) -> Seq<char> {
    s.subrange(0, 8) + s.subrange(9, 13) + s.subrange(14, 18) + s.subrange(19, 23) + s.subrange(24, 36)
}

/// The hyphenated form: 36 characters, hyphens at 8, 13, 18 and 23, hex
/// digits elsewhere.
pub open spec fn is_hyphenated_uuid(s: Seq<char>) -> bool {
    &&& s.len() == 36
    &&& s[8] == '-' && s[13] == '-' && s[18] == '-' && s[23] == '-'
    &&& forall|i: int| 0 <= i < 36 && i != 8 && i != 13 && i != 18 && i != 23 ==> is_hex_digit(#[trigger] s[i])
}

/// The simple form: 32 hex digits.
pub open spec fn is_simple_uuid(s: Seq<char>) -> bool {
    s.len() == 32 && forall|i: int| 0 <= i < 32 ==> is_hex_digit(#[trigger] s[i])
}

/// Relies on uuid's `Uuid::parse_str`: the UUID the text spells, in any of
/// the forms that function accepts, as its 128-bit value.  The answer depends
/// on the text alone.  The simple and hyphenated forms, in either case of hex
/// digit, spell their digits read as one big-endian number.
#[verifier::external_body]
fn parse_uuid(s: &str) -> (r: Option<u128>)
    ensures
        r == uuid_value(s@),
        is_simple_uuid(s@) ==> r == Some(hex_value(s@) as u128),
        is_hyphenated_uuid(s@) ==> r == Some(hex_value(hyphenated_digits(s@)) as u128),
{
    match uuid::Uuid::parse_str(s) {
        Ok(id) => Some(id.as_u128()),
        Err(_) => None,
    }
}

/// One command typed by the user.
#[derive(Debug)]
pub enum Command {
    Create(Option<String>),
    Join { chat_id: u128, username: String, password: Option<String> },
    Send(String),
    Leave,
    Exit,
    Help,
    Invalid,
}

pub enum CommandModel {
    Create(Option<Seq<char>>),
    Join { chat_id: u128, username: Seq<char>, password: Option<Seq<char>> },
    Send(Seq<char>),
    Leave,
    Exit,
    Help,
    Invalid,
}

impl View for Command {
    type V = CommandModel;

    open spec fn view(&self) -> CommandModel {
        match self {
            Command::Create(p) => CommandModel::Create(crate::protocol::opt_view(*p)),
            Command::Join { chat_id, username, password } => CommandModel::Join {
                chat_id: *chat_id,
                username: username@,
                password: crate::protocol::opt_view(*password),
            },
            Command::Send(m) => CommandModel::Send(m@),
            Command::Leave => CommandModel::Leave,
            Command::Exit => CommandModel::Exit,
            Command::Help => CommandModel::Help,
            Command::Invalid => CommandModel::Invalid,
        }
    }
}

/// The characters with Unicode's White_Space property.
pub open spec fn is_space(c: char) -> bool {
    let u = c as u32;
    (0x9 <= u <= 0xd) || u == 0x20 || u == 0x85 || u == 0xa0 || u == 0x1680 || (0x2000 <= u
        <= 0x200a) || u == 0x2028 || u == 0x2029 || u == 0x202f || u == 0x205f || u == 0x3000
}

/// The words found so far in `s`, and the word still being read.
pub open spec fn scan(s: Seq<char>) -> (Seq<Seq<char>>, Seq<char>)
    decreases s.len(),
{
    if s.len() == 0 {
        (Seq::empty(), Seq::empty())
    } else {
        let (done, cur) = scan(s.drop_last());
        if is_space(s.last()) {
            if cur.len() > 0 {
                (done.push(cur), Seq::empty())
            } else {
                (done, cur)
            }
        } else {
            (done, cur.push(s.last()))
        }
    }
}

/// The words of `s`: its maximal runs of non-space characters, in order.
pub open spec fn words(s: Seq<char>) -> Seq<Seq<char>> {
    let (done, cur) = scan(s);
    if cur.len() > 0 {
        done.push(cur)
    } else {
        done
    }
}

/// Words joined with single spaces.
pub open spec fn join_words(w: Seq<Seq<char>>) -> Seq<char>
    decreases w.len(),
{
    if w.len() == 0 {
        Seq::empty()
    } else if w.len() == 1 {
        w[0]
    } else {
        join_words(w.drop_last()) + seq![' '] + w.last()
    }
}

pub open spec fn word_at(w: Seq<Seq<char>>, i: int) -> Option<Seq<char>> {
    if i < w.len() {
        Some(w[i])
    } else {
        None
    }
}

/// The command that a line starting with `/` spells, by its words.
pub open spec fn parse_words(w: Seq<Seq<char>>) -> Result<CommandModel, ()> {
    if w.len() == 0 {
        Err(())
    } else if w[0] == "/create"@ {
        Ok(CommandModel::Create(word_at(w, 1)))
    } else if w[0] == "/join"@ {
        if w.len() >= 3 && uuid_value(w[1]) is Some {
            Ok(
                CommandModel::Join {
                    chat_id: uuid_value(w[1])->0,
                    username: w[2],
                    password: word_at(w, 3),
                },
            )
        } else {
            Err(())
        }
    } else if w[0] == "/send"@ {
        if w.len() >= 2 {
            Ok(CommandModel::Send(join_words(w.drop_first())))
        } else {
            Err(())
        }
    } else if w[0] == "/leave"@ {
        Ok(CommandModel::Leave)
    } else if w[0] == "/exit"@ {
        Ok(CommandModel::Exit)
    } else if w[0] == "/help"@ {
        Ok(CommandModel::Help)
    } else {
        Err(())
    }
}

/// Whether `c` has Unicode's White_Space property.
pub fn is_space_char(c: char) -> (r: bool)
    ensures
        r == is_space(c),
{
    let u = c as u32;
    (0x9 <= u && u <= 0xd) || u == 0x20 || u == 0x85 || u == 0xa0 || u == 0x1680 || (0x2000 <= u
        && u <= 0x200a) || u == 0x2028 || u == 0x2029 || u == 0x202f || u == 0x205f || u == 0x3000
}

/// Splits a line into its words.
pub fn split_words(line: &str) -> (r: Vec<String>)
    ensures
        r@.map_values(|w: String| w@) == words(line@),
{
    let n = line.unicode_len();
    let mut out: Vec<String> = Vec::new();
    let mut start: usize = 0;
    let mut i: usize = 0;
    while i < n
        invariant
            n == line@.len(),
            start <= i <= n,
            out@.map_values(|w: String| w@) == scan(line@.subrange(0, i as int)).0,
            scan(line@.subrange(0, i as int)).1 == line@.subrange(start as int, i as int),
        decreases n - i,
    {
        let c = line.get_char(i);
        assert(line@.subrange(0, i + 1).drop_last() =~= line@.subrange(0, i as int));
        if is_space_char(c) {
            if start < i {
                let w = line.substring_char(start, i).to_owned();
                let ghost before = out@;
                out.push(w);
                assert(out@.map_values(|w: String| w@) =~= before.map_values(|w: String| w@).push(w@));
            }
            start = i + 1;
        } else {
            assert(line@.subrange(start as int, i + 1) =~= line@.subrange(start as int, i as int).push(c));
        }
        i = i + 1;
    }
    assert(line@.subrange(0, n as int) =~= line@);
    if start < n {
        let w = line.substring_char(start, n).to_owned();
        let ghost before = out@;
        out.push(w);
        assert(out@.map_values(|w: String| w@) =~= before.map_values(|w: String| w@).push(w@));
    }
    out
}

/// The words from index `from` on, joined with single spaces.
fn join_from(w: &Vec<String>, from: usize) -> (r: String)
    requires
        from <= w@.len(),
    ensures
        r@ == join_words(w@.map_values(|x: String| x@).subrange(from as int, w@.len() as int)),
{
    let ghost ws = w@.map_values(|x: String| x@);
    let mut out = String::new();
    let mut i: usize = from;
    proof {
        reveal_strlit(" ");
    }
    while i < w.len()
        invariant
            from <= i <= w@.len(),
            ws == w@.map_values(|x: String| x@),
            out@ == join_words(ws.subrange(from as int, i as int)),
        decreases w@.len() - i,
    {
        let ghost prev = ws.subrange(from as int, i as int);
        let ghost next = ws.subrange(from as int, i + 1);
        assert(next.drop_last() =~= prev);
        assert(next.last() == w@[i as int]@);
        proof {
            reveal_strlit(" ");
        }
        if i > from {
            out.append(" ");
        }
        out.append(w[i].as_str());
        i = i + 1;
        proof {
            if prev.len() == 0 {
                assert(out@ =~= next[0]);
            } else {
                assert(out@ =~= join_words(prev) + seq![' '] + next.last());
            }
        }
    }
    out
}

/// The command that a line starting with `/` spells: `Err` for an unknown
/// command, missing arguments, a chat id that is no UUID, or `/send` with
/// no text.
pub fn parse_command(line: &str) -> (r: Result<Command, ()>)
    ensures
        r matches Ok(c) ==> parse_words(words(line@)) == Ok::<CommandModel, ()>(c@),
        r is Err ==> parse_words(words(line@)) is Err,
{
    let w = split_words(line);
    let ghost ws = w@.map_values(|x: String| x@);
    if w.len() == 0 {
        return Err(());
    }
    let first = &w[0];
    assert(first@ == ws[0]);
    if *first == "/create".to_owned() {
        let pw = if w.len() > 1 { Some(w[1].clone()) } else { None };
        Ok(Command::Create(pw))
    } else if *first == "/join".to_owned() {
        if w.len() < 3 {
            return Err(());
        }
        assert(w@[1]@ == ws[1] && w@[2]@ == ws[2]);
        match parse_uuid(w[1].as_str()) {
            Some(chat_id) => {
                let password = if w.len() > 3 { Some(w[3].clone()) } else { None };
                Ok(Command::Join { chat_id, username: w[2].clone(), password })
            },
            None => Err(()),
        }
    } else if *first == "/send".to_owned() {
        if w.len() < 2 {
            return Err(());
        }
        let msg = join_from(&w, 1);
        assert(ws.subrange(1, ws.len() as int) =~= ws.drop_first());
        Ok(Command::Send(msg))
    } else if *first == "/leave".to_owned() {
        Ok(Command::Leave)
    } else if *first == "/exit".to_owned() {
        Ok(Command::Exit)
    } else if *first == "/help".to_owned() {
        Ok(Command::Help)
    } else {
        Err(())
    }
}

/// What a typed line means: a line starting with `/` is a command (or
/// `Invalid`), any other line is text to send.
pub open spec fn line_command(line: Seq<char>) -> CommandModel {
    if line.len() > 0 && line[0] == '/' {
        match parse_words(words(line)) {
            Ok(c) => c,
            Err(_) => CommandModel::Invalid,
        }
    } else {
        CommandModel::Send(line)
    }
}

impl Command {
    /// The command a typed line means.
    pub fn from_line(line: &str) -> (r: Command)
        ensures
            r@ == line_command(line@),
    {
        if line.unicode_len() > 0 && line.get_char(0) == '/' {
            match parse_command(line) {
                Ok(c) => c,
                Err(()) => Command::Invalid,
            }
        } else {
            Command::Send(line.to_owned())
        }
    }
}

impl std::str::FromStr for Command {
    type Err = ();

    fn from_str(line: &str) -> Result<Command, ()> {
        parse_command(line)
    }
}

} // verus!
