//! What the client sends: the server's address and the `STREAM` request
//! built from its settings and its ticker file.

use vstd::prelude::*;
use vstd::string::StringExecFns;
use crate::command::{
    command_spec, find_sep_from, is_escape, is_option, is_stream_name, scan_args, sep_at,
    split_endpoint, CommandErrorView,
};
use crate::text::{
    chars_of, is_ws, lemma_words_last, lemma_words_sep, no_ws, push_char, split_on, word_if_any,
    words,
};

verus! {

/// The client's settings.
pub struct CliCommands {
    /// Address of the server host.
    pub ip_server: String,
    /// TCP port of the server.
    pub port_server: String,
    /// UDP port on which the client receives quotes.
    pub port_udp: String,
    /// File listing the tickers to subscribe to, one per line.
    pub path_file: String,
}

/// The client's command, as given on its command line.
pub enum Commands {
    Stream { endpoint: String, tickets: Vec<String> },
}

/// `s` with every line break turned into a comma.
pub open spec fn newlines_to_commas(s: Seq<char>) -> Seq<char> {
    s.map_values(|c: char| if c == '\n' { ',' } else { c })
}

/// `host:port`.
pub open spec fn address_text(host: Seq<char>, port: Seq<char>) -> Seq<char> {
    host + seq![':'] + port
}

/// The request line: `STREAM udp://<ip>:<port> <tickers>`.
pub open spec fn request_text(ip: Seq<char>, port_udp: Seq<char>, tickers: Seq<char>) -> Seq<char> {
    seq!['S', 'T', 'R', 'E', 'A', 'M', ' ', 'u', 'd', 'p', ':', '/', '/'] + address_text(ip, port_udp)
        + seq![' '] + tickers
}

fn push_chars(s: &mut String, cs: &Vec<char>)
    ensures
        final(s)@ == old(s)@ + cs@,
{
    let mut i: usize = 0;
    while i < cs.len()
        invariant
            i <= cs.len(),
            s@ == old(s)@ + cs@.take(i as int),
        decreases cs.len() - i,
    {
        push_char(s, cs[i]);
        assert(cs@.take(i + 1) == cs@.take(i as int).push(cs@[i as int]));
        i = i + 1;
    }
    assert(cs@.take(i as int) == cs@);
}

/// The ticker list as the client sends it: the file's lines joined by commas
/// (every line break becomes a comma).
pub fn tickers_from_file(content: &str) -> (r: String)
    ensures
        r@ == newlines_to_commas(content@),
{
    let cs = chars_of(content);
    let mut r = String::new();
    let mut i: usize = 0;
    while i < cs.len()
        invariant
            cs@ == content@,
            i <= cs.len(),
            r@ == newlines_to_commas(content@).take(i as int),
        decreases cs.len() - i,
    {
        let c = cs[i];
        push_char(&mut r, if c == '\n' { ',' } else { c });
        assert(newlines_to_commas(content@).take(i + 1)
            == newlines_to_commas(content@).take(i as int).push(newlines_to_commas(content@)[i as int]));
        i = i + 1;
    }
    assert(newlines_to_commas(content@).take(i as int) == newlines_to_commas(content@));
    r
}

impl CliCommands {
    /// The server's TCP address, `ip_server:port_server`.
    pub fn server_address(&self) -> (r: String)
        ensures
            r@ == address_text(self.ip_server@, self.port_server@),
    {
        let mut r = self.ip_server.clone();
        push_char(&mut r, ':');
        r.append(self.port_server.as_str());
        r
    }

    /// The request that asks the server to stream to this client's UDP port
    /// the tickers of `ticker_file` (the file's contents, or `None` when it
    /// could not be read, in which case no ticker is named).
    pub fn stream_request(&self, ticker_file: Option<String>) -> (r: String)
        ensures
            r@ == request_text(
                self.ip_server@,
                self.port_udp@,
                match ticker_file {
                    Some(c) => newlines_to_commas(c@),
                    None => seq![],
                },
            ),
    {
        let tickers = match &ticker_file {
            Some(c) => tickers_from_file(c.as_str()),
            None => String::new(),
        };
        let prefix: Vec<char> = vec!['S', 'T', 'R', 'E', 'A', 'M', ' ', 'u', 'd', 'p', ':', '/', '/'];
        let mut r = String::new();
        push_chars(&mut r, &prefix);
        r.append(self.ip_server.as_str());
        push_char(&mut r, ':');
        r.append(self.port_udp.as_str());
        push_char(&mut r, ' ');
        r.append(tickers.as_str());
        assert(r@ =~= request_text(self.ip_server@, self.port_udp@, tickers@));
        r
    }
}

/// The server reads a client's request as a `stream` command to
/// `udp://<ip>:<port>` for the tickers of the client's file, split at the
/// commas; a file with no contents names no ticker.  This holds when the
/// address parts hold no white space and the file holds no white space but
/// line breaks and, unless it is just `-`, does not begin with `-`.
pub proof fn lemma_request_understood(ip: Seq<char>, port: Seq<char>, content: Seq<char>)
    requires
        no_ws(ip),
        no_ws(port),
        forall|i: int| 0 <= i < content.len() ==> #[trigger] content[i] == '\n' || !is_ws(content[i]),
        content.len() <= 1 || content[0] != '-',
    ensures
        command_spec(request_text(ip, port, newlines_to_commas(content))) == Ok::<_, CommandErrorView>((
            seq!['u', 'd', 'p'],
            address_text(ip, port),
            if content.len() == 0 {
                Seq::<Seq<char>>::empty()
            } else {
                split_on(newlines_to_commas(content), ',')
            },
        )),
{
    let r = newlines_to_commas(content);
    let name = seq!['S', 'T', 'R', 'E', 'A', 'M'];
    let addr = address_text(ip, port);
    let e = seq!['u', 'd', 'p', ':', '/', '/'] + addr;
    let line = request_text(ip, port, r);
    assert(line =~= name + seq![' '] + (e + seq![' '] + r));
    assert(no_ws(name));
    assert(is_ws(' '));
    assert(no_ws(addr)) by {
        assert forall|i: int| 0 <= i < addr.len() implies !is_ws(#[trigger] addr[i]) by {
            if i < ip.len() {
                assert(addr[i] == ip[i]);
            } else if i == ip.len() {
                assert(addr[i] == ':');
            } else {
                assert(addr[i] == port[i - ip.len() - 1]);
            }
        }
    }
    assert(no_ws(e)) by {
        assert forall|i: int| 0 <= i < e.len() implies !is_ws(#[trigger] e[i]) by {
            if i >= 6 {
                assert(e[i] == addr[i - 6]);
            }
        }
    }
    assert(no_ws(r)) by {
        assert forall|i: int| 0 <= i < r.len() implies !is_ws(#[trigger] r[i]) by {
            assert(content[i] == '\n' || !is_ws(content[i]));
        }
    }
    lemma_words_sep(name, ' ', e + seq![' '] + r);
    lemma_words_sep(e, ' ', r);
    lemma_words_last(r);
    let ws = words(line);
    assert(ws == seq![name] + (seq![e] + word_if_any(r)));
    assert(ws[0] == name);
    assert(is_stream_name(name));
    assert(ws[1] == e);
    assert(!is_escape(e));
    assert(!is_option(e));
    assert(!sep_at(e, 0));
    assert(!sep_at(e, 1));
    assert(!sep_at(e, 2));
    assert(sep_at(e, 3));
    assert(find_sep_from(e, 0) == find_sep_from(e, 1));
    assert(find_sep_from(e, 1) == find_sep_from(e, 2));
    assert(find_sep_from(e, 2) == find_sep_from(e, 3));
    assert(find_sep_from(e, 3) == Some(3nat));
    assert(e.take(3) =~= seq!['u', 'd', 'p']);
    assert(e.skip(6) =~= addr);
    assert(split_endpoint(e) == Some((seq!['u', 'd', 'p'], addr)));
    let ep = Some((seq!['u', 'd', 'p'], addr));
    assert(command_spec(line) == scan_args(ws, 1, false, None, seq![]));
    assert(scan_args(ws, 1, false, None, seq![]) == scan_args(ws, 2, false, ep, seq![]));
    if content.len() == 0 {
        assert(r.len() == 0);
        assert(ws.len() == 2);
    } else {
        assert(r.len() > 0);
        assert(ws.len() == 3);
        assert(ws[2] == r);
        assert(r[0] == (if content[0] == '\n' { ',' } else { content[0] }));
        assert(r.len() <= 1 || r[0] != '-');
        assert(!is_escape(r));
        assert(!is_option(r));
        assert(scan_args(ws, 2, false, ep, seq![]) == scan_args(ws, 3, false, ep, seq![] + split_on(r, ',')));
        assert(seq![] + split_on(r, ',') == split_on(r, ','));
    }
}

} // verus!

verus! {

proof fn lemma_commas_split_like_lines(c: Seq<char>, cur: Seq<char>)
    requires
        !c.contains(','),
    ensures
        crate::text::split_from(newlines_to_commas(c), ',', cur) == crate::text::split_from(c, '\n', cur),
    decreases c.len(),
{
    let m = newlines_to_commas(c);
    if c.len() > 0 {
        assert(m.drop_first() == newlines_to_commas(c.drop_first()));
        assert(!c.drop_first().contains(',')) by {
            if c.drop_first().contains(',') {
                let k: int = choose|k: int| 0 <= k < c.drop_first().len() && c.drop_first()[k] == ',';
                assert(c[k + 1] == ',');
            }
        }
        assert(c[0] != ',') by {
            if c[0] == ',' {
                assert(c.contains(','));
            }
        }
        assert(m[0] == (if c[0] == '\n' { ',' } else { c[0] }));
        if c[0] == '\n' {
            lemma_commas_split_like_lines(c.drop_first(), seq![]);
        } else {
            lemma_commas_split_like_lines(c.drop_first(), cur.push(c[0]));
        }
    }
}

/// The tickers that the server reads from a client's request are the lines
/// of the client's ticker file (a final line break yields a final empty
/// ticker), as long as the file holds no comma.
pub proof fn lemma_request_names_file_lines(content: Seq<char>)
    requires
        !content.contains(','),
    ensures
        split_on(newlines_to_commas(content), ',') == split_on(content, '\n'),
{
    lemma_commas_split_like_lines(content, seq![]);
}

} // verus!
