//! The command a client sends the server over TCP, one line:
//! `STREAM <protocol>://<address> [TICKER[,TICKER]...]...`.

use vstd::prelude::*;
use crate::text::{
    chars_eq, chars_of, is_ws, lemma_words_last, lemma_words_sep, no_ws, split_char, split_on, split_words,
    string_of, views, words,
};

verus! {

/// A network endpoint written `<protocol>://<address>`.
pub struct Endpoint {
    pub protocol: String,
    pub address: String,
}

impl View for Endpoint {
    type V = (Seq<char>, Seq<char>);

    open spec fn view(&self) -> Self::V {
        (self.protocol@, self.address@)
    }
}

/// The commands that the server understands.
pub enum Commands {
    /// Stream quotes of the given tickers to the endpoint.
    Stream { endpoint: Endpoint, tickets: Vec<String> },
}

/// A parsed client command.
pub struct CommandClient {
    pub command: Commands,
}

impl View for CommandClient {
    /// The endpoint's protocol and address, and the tickers.
    type V = (Seq<char>, Seq<char>, Seq<Seq<char>>);

    open spec fn view(&self) -> Self::V {
        match &self.command {
            Commands::Stream { endpoint, tickets } => (endpoint.protocol@, endpoint.address@, views(tickets@)),
        }
    }
}

/// Why a command line was refused.
pub enum CommandError {
    /// The line names no command (it holds no word, or only `--`).
    MissingCommand,
    /// The line asks for help (`help`, optionally naming `stream` or `help`).
    HelpRequested,
    /// The word where a command is due names none.
    UnknownCommand(String),
    /// A word that reads as an option (`-x`, `--xyz`) before any `--`, or a
    /// `--` before a command name.
    UnexpectedArgument(String),
    /// The endpoint word lacks `://`.
    InvalidEndpoint(String),
    /// No endpoint follows the command.
    MissingEndpoint,
}

pub enum CommandErrorView {
    MissingCommand,
    HelpRequested,
    UnknownCommand(Seq<char>),
    UnexpectedArgument(Seq<char>),
    InvalidEndpoint(Seq<char>),
    MissingEndpoint,
}

impl View for CommandError {
    type V = CommandErrorView;

    open spec fn view(&self) -> Self::V {
        match self {
            CommandError::MissingCommand => CommandErrorView::MissingCommand,
            CommandError::HelpRequested => CommandErrorView::HelpRequested,
            CommandError::UnknownCommand(w) => CommandErrorView::UnknownCommand(w@),
            CommandError::UnexpectedArgument(w) => CommandErrorView::UnexpectedArgument(w@),
            CommandError::InvalidEndpoint(w) => CommandErrorView::InvalidEndpoint(w@),
            CommandError::MissingEndpoint => CommandErrorView::MissingEndpoint,
        }
    }
}

/// `://` starts at position `i` of `s`.
pub open spec fn sep_at(s: Seq<char>, i: int) -> bool {
    0 <= i && i + 3 <= s.len() && s[i] == ':' && s[i + 1] == '/' && s[i + 2] == '/'
}

/// The first position at or after `i` where `://` starts.
pub open spec fn find_sep_from(s: Seq<char>, i: nat) -> Option<nat>
    decreases s.len() - i,
{
    if i + 3 > s.len() {
        None
    } else if sep_at(s, i as int) {
        Some(i)
    } else {
        find_sep_from(s, i + 1)
    }
}

/// `s` split at its first `://`: the protocol before it, the address after it.
pub open spec fn split_endpoint(s: Seq<char>) -> Option<(Seq<char>, Seq<char>)> {
    match find_sep_from(s, 0) {
        Some(i) => Some((s.take(i as int), s.skip((i + 3) as int))),
        None => None,
    }
}

/// The message of a refused endpoint.
pub open spec fn endpoint_format_message() -> Seq<char> {
    "endpoint must be in format <proto>://<address>"@
}

/// The first `://` found at or after `i` is the one `find_sep_from` names.
proof fn lemma_find_sep_step(s: Seq<char>, i: nat)
    requires
        i + 3 <= s.len(),
        !sep_at(s, i as int),
    ensures
        find_sep_from(s, i) == find_sep_from(s, i + 1),
{
}

/// Parses `<protocol>://<address>`, splitting at the first `://`.
pub fn parse_endpoint(s: &str) -> (r: Result<Endpoint, String>)
    ensures
        match r {
            Ok(ep) => split_endpoint(s@) == Some(ep@),
            Err(e) => split_endpoint(s@) is None && e@ == endpoint_format_message(),
        },
{
    let cs = chars_of(s);
    let n: usize = cs.len();
    let mut i: usize = 0;
    while n >= 3 && i <= n - 3
        invariant
            cs@ == s@,
            n == cs.len(),
            find_sep_from(s@, 0) == find_sep_from(s@, i as nat),
        decreases n - i,
    {
        if cs[i] == ':' && cs[i + 1] == '/' && cs[i + 2] == '/' {
            let protocol = string_of(&cs, 0, i);
            let address = string_of(&cs, i + 3, n);
            assert(s@.take(i as int) == cs@.subrange(0, i as int));
            assert(s@.skip(i + 3) == cs@.subrange(i + 3, n as int));
            return Ok(Endpoint { protocol, address });
        }
        proof {
            lemma_find_sep_step(s@, i as nat);
        }
        i = i + 1;
    }
    Err("endpoint must be in format <proto>://<address>".to_owned())
}

} // verus!

verus! {

/// The names under which the `stream` command is accepted.
pub open spec fn is_stream_name(w: Seq<char>) -> bool {
    w == seq!['s', 't', 'r', 'e', 'a', 'm'] || w == seq!['S', 't', 'r', 'e', 'a', 'm']
        || w == seq!['S', 'T', 'R', 'E', 'A', 'M']
}

/// The word `help`.
pub open spec fn is_help(w: Seq<char>) -> bool {
    w == seq!['h', 'e', 'l', 'p']
}

/// A line that begins with `help`: it may name one command (`stream` under
/// any of its names, or `help`); any other word is refused as unknown.
pub open spec fn help_spec(ws: Seq<Seq<char>>) -> Result<(Seq<char>, Seq<char>, Seq<Seq<char>>), CommandErrorView> {
    if ws.len() <= 1 {
        Err(CommandErrorView::HelpRequested)
    } else if is_stream_name(ws[1]) || is_help(ws[1]) {
        if ws.len() == 2 {
            Err(CommandErrorView::HelpRequested)
        } else {
            Err(CommandErrorView::UnknownCommand(ws[2]))
        }
    } else {
        Err(CommandErrorView::UnknownCommand(ws[1]))
    }
}

/// The word `--`, after which every word is a value.
pub open spec fn is_escape(w: Seq<char>) -> bool {
    w == seq!['-', '-']
}

/// A word that reads as an option: a `-` followed by at least one character.
pub open spec fn is_option(w: Seq<char>) -> bool {
    w.len() >= 2 && w[0] == '-'
}

/// The arguments of `stream` from word `i` on: the first value is the
/// endpoint, every later value is a comma-separated list of tickers.
pub open spec fn scan_args(
    ws: Seq<Seq<char>>,
    i: nat,
    escaped: bool,
    endpoint: Option<(Seq<char>, Seq<char>)>,
    tickets: Seq<Seq<char>>,
) -> Result<(Seq<char>, Seq<char>, Seq<Seq<char>>), CommandErrorView>
    decreases ws.len() - i,
{
    if i >= ws.len() {
        match endpoint {
            Some(ep) => Ok((ep.0, ep.1, tickets)),
            None => Err(CommandErrorView::MissingEndpoint),
        }
    } else {
        let w = ws[i as int];
        if !escaped && is_escape(w) {
            scan_args(ws, i + 1, true, endpoint, tickets)
        } else if !escaped && is_option(w) {
            Err(CommandErrorView::UnexpectedArgument(w))
        } else {
            match endpoint {
                None => match split_endpoint(w) {
                    Some(ep) => scan_args(ws, i + 1, escaped, Some(ep), tickets),
                    None => Err(CommandErrorView::InvalidEndpoint(w)),
                },
                Some(ep) => scan_args(ws, i + 1, escaped, endpoint, tickets + split_on(w, ',')),
            }
        }
    }
}

/// What a line whose first word names no command means: a leading `--`
/// makes the next word a value where a command is due; a word that reads as
/// an option is unexpected; any other word is an unknown command.
pub open spec fn no_command_spec(ws: Seq<Seq<char>>) -> Result<(Seq<char>, Seq<char>, Seq<Seq<char>>), CommandErrorView> {
    if is_escape(ws[0]) {
        if ws.len() <= 1 {
            Err(CommandErrorView::MissingCommand)
        } else if is_stream_name(ws[1]) || is_help(ws[1]) {
            Err(CommandErrorView::UnexpectedArgument(ws[0]))
        } else {
            Err(CommandErrorView::UnknownCommand(ws[1]))
        }
    } else if is_option(ws[0]) {
        Err(CommandErrorView::UnexpectedArgument(ws[0]))
    } else {
        Err(CommandErrorView::UnknownCommand(ws[0]))
    }
}

/// What a command line means: its white-space separated words are the
/// command name and then its arguments.
pub open spec fn command_spec(line: Seq<char>) -> Result<(Seq<char>, Seq<char>, Seq<Seq<char>>), CommandErrorView> {
    let ws = words(line);
    if ws.len() == 0 {
        Err(CommandErrorView::MissingCommand)
    } else if is_help(ws[0]) {
        help_spec(ws)
    } else if !is_stream_name(ws[0]) {
        no_command_spec(ws)
    } else {
        scan_args(ws, 1, false, None, seq![])
    }
}

fn is_help_word(w: &String) -> (r: bool)
    ensures
        r == is_help(w@),
{
    let cs = chars_of(w.as_str());
    let h: Vec<char> = vec!['h', 'e', 'l', 'p'];
    assert(h@ == seq!['h', 'e', 'l', 'p']);
    chars_eq(&cs, &h)
}

fn is_stream_word(w: &String) -> (r: bool)
    ensures
        r == is_stream_name(w@),
{
    let cs = chars_of(w.as_str());
    let a: Vec<char> = vec!['s', 't', 'r', 'e', 'a', 'm'];
    let b: Vec<char> = vec!['S', 't', 'r', 'e', 'a', 'm'];
    let c: Vec<char> = vec!['S', 'T', 'R', 'E', 'A', 'M'];
    assert(a@ == seq!['s', 't', 'r', 'e', 'a', 'm']);
    assert(b@ == seq!['S', 't', 'r', 'e', 'a', 'm']);
    assert(c@ == seq!['S', 'T', 'R', 'E', 'A', 'M']);
    chars_eq(&cs, &a) || chars_eq(&cs, &b) || chars_eq(&cs, &c)
}

/// Whether `w` is `--`, and whether it reads as an option.
fn classify_word(w: &String) -> (r: (bool, bool))
    ensures
        r.0 == is_escape(w@),
        r.1 == is_option(w@),
{
    let cs = chars_of(w.as_str());
    let escape = cs.len() == 2 && cs[0] == '-' && cs[1] == '-';
    assert(escape ==> cs@ == seq!['-', '-']);
    assert(cs@ == seq!['-', '-'] ==> cs@[0] == '-' && cs@[1] == '-' && cs.len() == 2);
    let option = cs.len() >= 2 && cs[0] == '-';
    (escape, option)
}

/// Parses the command line a client sent.
pub fn parse_command(line: &str) -> (r: Result<CommandClient, CommandError>)
    ensures
        match r {
            Ok(c) => command_spec(line@) == Ok::<_, CommandErrorView>(c@),
            Err(e) => command_spec(line@) == Err::<(Seq<char>, Seq<char>, Seq<Seq<char>>), _>(e@),
        },
{
    let ws = split_words(line);
    let ghost wv = views(ws@);
    assert(wv.len() == ws@.len());
    if ws.len() == 0 {
        return Err(CommandError::MissingCommand);
    }
    assert(wv[0] == ws@[0]@);
    if is_help_word(&ws[0]) {
        if ws.len() == 1 {
            return Err(CommandError::HelpRequested);
        }
        assert(wv[1] == ws@[1]@);
        if is_stream_word(&ws[1]) || is_help_word(&ws[1]) {
            if ws.len() == 2 {
                return Err(CommandError::HelpRequested);
            }
            assert(wv[2] == ws@[2]@);
            return Err(CommandError::UnknownCommand(ws[2].clone()));
        }
        return Err(CommandError::UnknownCommand(ws[1].clone()));
    }
    if !is_stream_word(&ws[0]) {
        let (first_escape, first_option) = classify_word(&ws[0]);
        if first_escape {
            if ws.len() == 1 {
                return Err(CommandError::MissingCommand);
            }
            assert(wv[1] == ws@[1]@);
            if is_stream_word(&ws[1]) || is_help_word(&ws[1]) {
                return Err(CommandError::UnexpectedArgument(ws[0].clone()));
            }
            return Err(CommandError::UnknownCommand(ws[1].clone()));
        }
        if first_option {
            return Err(CommandError::UnexpectedArgument(ws[0].clone()));
        }
        return Err(CommandError::UnknownCommand(ws[0].clone()));
    }
    let mut escaped = false;
    let mut endpoint: Option<Endpoint> = None;
    let mut tickets: Vec<String> = Vec::new();
    let mut i: usize = 1;
    assert(views(tickets@) =~= Seq::<Seq<char>>::empty());
    assert(!is_help(wv[0]));
    while i < ws.len()
        invariant
            wv == views(ws@),
            !is_help(wv[0]),
            wv == words(line@),
            wv.len() == ws@.len(),
            1 <= i <= ws.len(),
            is_stream_name(wv[0]),
            command_spec(line@) == scan_args(
                wv,
                i as nat,
                escaped,
                match endpoint { Some(ep) => Some(ep@), None => None },
                views(tickets@),
            ),
        decreases ws.len() - i,
    {
        let w = &ws[i];
        assert(wv[i as int] == w@);
        let (is_esc, is_opt) = classify_word(w);
        if !escaped && is_esc {
            escaped = true;
        } else if !escaped && is_opt {
            return Err(CommandError::UnexpectedArgument(w.clone()));
        } else {
            match endpoint {
                None => {
                    match parse_endpoint(w.as_str()) {
                        Ok(ep) => {
                            endpoint = Some(ep);
                        },
                        Err(_) => {
                            return Err(CommandError::InvalidEndpoint(w.clone()));
                        },
                    }
                },
                Some(ep) => {
                    let pieces = split_char(w.as_str(), ',');
                    let ghost before = views(tickets@);
                    let mut k: usize = 0;
                    while k < pieces.len()
                        invariant
                            k <= pieces.len(),
                            views(tickets@) == before + views(pieces@).take(k as int),
                        decreases pieces.len() - k,
                    {
                        let ghost t0 = views(tickets@);
                        tickets.push(pieces[k].clone());
                        assert(views(tickets@) == t0.push(pieces@[k as int]@));
                        assert(views(pieces@).take(k + 1) == views(pieces@).take(k as int).push(pieces@[k as int]@));
                        k = k + 1;
                    }
                    assert(views(pieces@).take(k as int) == views(pieces@));
                    endpoint = Some(ep);
                },
            }
        }
        i = i + 1;
    }
    match endpoint {
        Some(ep) => Ok(CommandClient { command: Commands::Stream { endpoint: ep, tickets } }),
        None => Err(CommandError::MissingEndpoint),
    }
}

} // verus!

verus! {

proof fn lemma_no_sep_after(p: Seq<char>, j: nat, i: int)
    requires
        find_sep_from(p, j) is None,
        j <= i,
    ensures
        !sep_at(p, i),
    decreases p.len() - j,
{
    if j + 3 <= p.len() && (j as int) < i {
        lemma_no_sep_after(p, j + 1, i);
    }
}

proof fn lemma_sep_found(p: Seq<char>, a: Seq<char>, i: nat)
    requires
        find_sep_from(p, 0) is None,
        i <= p.len(),
    ensures
        find_sep_from(p + seq![':', '/', '/'] + a, i) == Some(p.len()),
    decreases p.len() - i,
{
    let s = p + seq![':', '/', '/'] + a;
    if i == p.len() {
        assert(sep_at(s, i as int));
    } else {
        if i + 3 <= p.len() {
            lemma_no_sep_after(p, 0, i as int);
            assert(s[i as int] == p[i as int]);
            assert(s[i + 1int] == p[i + 1int]);
            assert(s[i + 2int] == p[i + 2int]);
        } else if i + 2 == p.len() {
            assert(s[i + 2int] == ':');
        } else {
            assert(s[i + 1int] == ':');
        }
        assert(!sep_at(s, i as int));
        lemma_sep_found(p, a, i + 1);
    }
}

/// An endpoint written `<protocol>://<address>` reads back as that protocol
/// and address, as long as the protocol itself holds no `://`.
pub proof fn lemma_endpoint_round_trip(protocol: Seq<char>, address: Seq<char>)
    requires
        find_sep_from(protocol, 0) is None,
    ensures
        split_endpoint(protocol + seq![':', '/', '/'] + address) == Some((protocol, address)),
{
    let s = protocol + seq![':', '/', '/'] + address;
    lemma_sep_found(protocol, address, 0);
    assert(s.take(protocol.len() as int) =~= protocol);
    assert(s.skip(protocol.len() + 3int) =~= address);
}

} // verus!

verus! {

/// The words joined by single spaces.
pub open spec fn join_words(ws: Seq<Seq<char>>) -> Seq<char>
    decreases ws.len(),
{
    if ws.len() == 0 {
        seq![]
    } else if ws.len() == 1 {
        ws[0]
    } else {
        ws[0] + seq![' '] + join_words(ws.drop_first())
    }
}

/// All comma-separated pieces of the words, in order.
pub open spec fn comma_pieces(ws: Seq<Seq<char>>) -> Seq<Seq<char>>
    decreases ws.len(),
{
    if ws.len() == 0 {
        seq![]
    } else {
        split_on(ws[0], ',') + comma_pieces(ws.drop_first())
    }
}

/// A nonempty word without white space that does not begin with `-`.
pub open spec fn plain_word(w: Seq<char>) -> bool {
    w.len() > 0 && no_ws(w) && w[0] != '-'
}

proof fn lemma_words_of_join(ws: Seq<Seq<char>>)
    requires
        forall|i: int| 0 <= i < ws.len() ==> plain_word(#[trigger] ws[i]),
    ensures
        words(join_words(ws)) == ws,
    decreases ws.len(),
{
    if ws.len() == 0 {
        assert(words(seq![]) == Seq::<Seq<char>>::empty());
    } else if ws.len() == 1 {
        assert(plain_word(ws[0]));
        lemma_words_last(ws[0]);
        assert(ws =~= seq![ws[0]]);
    } else {
        let rest = ws.drop_first();
        assert(plain_word(ws[0]));
        assert forall|i: int| 0 <= i < rest.len() implies plain_word(#[trigger] rest[i]) by {
            assert(rest[i] == ws[i + 1]);
        }
        lemma_words_of_join(rest);
        lemma_words_sep(ws[0], ' ', join_words(rest));
        assert(ws =~= seq![ws[0]] + rest);
    }
}

proof fn lemma_scan_plain(
    ws: Seq<Seq<char>>,
    i: nat,
    ep: (Seq<char>, Seq<char>),
    t: Seq<Seq<char>>,
)
    requires
        i <= ws.len(),
        forall|j: int| i <= j < ws.len() ==> plain_word(#[trigger] ws[j]),
    ensures
        scan_args(ws, i, false, Some(ep), t) == Ok::<_, CommandErrorView>((ep.0, ep.1, t + comma_pieces(ws.skip(i as int)))),
    decreases ws.len() - i,
{
    if i == ws.len() {
        assert(ws.skip(i as int).len() == 0);
        assert(t + comma_pieces(ws.skip(i as int)) =~= t);
    } else {
        let w = ws[i as int];
        assert(plain_word(w));
        assert(!is_escape(w));
        assert(!is_option(w));
        lemma_scan_plain(ws, i + 1, ep, t + split_on(w, ','));
        let s = ws.skip(i as int);
        assert(s[0] == w);
        assert(s.drop_first() =~= ws.skip(i + 1int));
        assert(comma_pieces(s) == split_on(w, ',') + comma_pieces(ws.skip(i + 1int)));
        assert(t + split_on(w, ',') + comma_pieces(ws.skip(i + 1int)) =~= t + comma_pieces(s));
    }
}

/// A `stream` line with an endpoint and any number of ticker words (plain
/// words, separated by spaces) is read as that endpoint and every
/// comma-separated piece of every ticker word, in order.
pub proof fn lemma_stream_line(
    name: Seq<char>,
    endpoint: Seq<char>,
    protocol: Seq<char>,
    address: Seq<char>,
    tickers: Seq<Seq<char>>,
)
    requires
        is_stream_name(name),
        plain_word(endpoint),
        split_endpoint(endpoint) == Some((protocol, address)),
        forall|i: int| 0 <= i < tickers.len() ==> plain_word(#[trigger] tickers[i]),
    ensures
        command_spec(join_words(seq![name, endpoint] + tickers)) == Ok::<_, CommandErrorView>((
            protocol,
            address,
            comma_pieces(tickers),
        )),
{
    let ws = seq![name, endpoint] + tickers;
    assert(name.len() == 6);
    assert(no_ws(name)) by {
        assert forall|i: int| 0 <= i < name.len() implies !is_ws(#[trigger] name[i]) by {
            assert(65 <= (name[i] as u32));
        }
    }
    assert(name[0] != '-');
    assert forall|i: int| 0 <= i < ws.len() implies plain_word(#[trigger] ws[i]) by {
        if i >= 2 {
            assert(ws[i] == tickers[i - 2]);
        }
    }
    lemma_words_of_join(ws);
    assert(ws[0] == name);
    assert(!is_help(name));
    assert(ws[1] == endpoint);
    assert(!is_escape(endpoint));
    assert(!is_option(endpoint));
    let ep = (protocol, address);
    assert forall|j: int| 2 <= j < ws.len() implies plain_word(#[trigger] ws[j]) by {}
    lemma_scan_plain(ws, 2, ep, seq![]);
    assert(ws.skip(2) =~= tickers);
    assert(seq![] + comma_pieces(tickers) =~= comma_pieces(tickers));
}

} // verus!
