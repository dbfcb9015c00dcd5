use vstd::prelude::*;

use crate::Error;

verus! {

/// The classification of one structured message from the game process.
#[derive(Clone, Copy, PartialEq, Eq, Structural, Debug)]
pub enum SocketMessageType {
    Info,
    Warning,
    Error,
    Fatal,
    Success,
    Debug,
}

/// One structured message read from the game's log socket.
pub struct SocketMessage {
    pub message_type: SocketMessageType,
    pub message: String,
}

/// One message tagged with the session port it arrived on.
pub struct GameMessage {
    pub port: u16,
    pub message: SocketMessage,
}

/// Per running-game-instance state: the resolved listening port and the
/// ordered, append-only message buffer. The backing file sink and the socket
/// live outside the engine; arrival order here is the order the socket
/// delivered.
pub struct LogSession {
    pub port: u16,
    pub messages: Vec<GameMessage>,
}

/// ASCII lowercase of one character; anything but an ASCII capital is kept.
pub open spec fn lower_char_spec(c: char) -> char {
    if c == 'A' {
        'a'
    } else if c == 'B' {
        'b'
    } else if c == 'C' {
        'c'
    } else if c == 'D' {
        'd'
    } else if c == 'E' {
        'e'
    } else if c == 'F' {
        'f'
    } else if c == 'G' {
        'g'
    } else if c == 'H' {
        'h'
    } else if c == 'I' {
        'i'
    } else if c == 'J' {
        'j'
    } else if c == 'K' {
        'k'
    } else if c == 'L' {
        'l'
    } else if c == 'M' {
        'm'
    } else if c == 'N' {
        'n'
    } else if c == 'O' {
        'o'
    } else if c == 'P' {
        'p'
    } else if c == 'Q' {
        'q'
    } else if c == 'R' {
        'r'
    } else if c == 'S' {
        's'
    } else if c == 'T' {
        't'
    } else if c == 'U' {
        'u'
    } else if c == 'V' {
        'v'
    } else if c == 'W' {
        'w'
    } else if c == 'X' {
        'x'
    } else if c == 'Y' {
        'y'
    } else if c == 'Z' {
        'z'
    } else {
        c
    }
}

/// ASCII-lowercased text.
pub open spec fn lower_spec(s: Seq<char>) -> Seq<char> {
    s.map_values(|c: char| lower_char_spec(c))
}

/// ASCII lowercase of one character.
pub fn lower_char(c: char) -> (r: char)
    ensures
        r == lower_char_spec(c),
{
    match c {
        'A' => 'a',
        'B' => 'b',
        'C' => 'c',
        'D' => 'd',
        'E' => 'e',
        'F' => 'f',
        'G' => 'g',
        'H' => 'h',
        'I' => 'i',
        'J' => 'j',
        'K' => 'k',
        'L' => 'l',
        'M' => 'm',
        'N' => 'n',
        'O' => 'o',
        'P' => 'p',
        'Q' => 'q',
        'R' => 'r',
        'S' => 's',
        'T' => 't',
        'U' => 'u',
        'V' => 'v',
        'W' => 'w',
        'X' => 'x',
        'Y' => 'y',
        'Z' => 'z',
        _ => c,
    }
}

/// Whether `needle` occurs in `hay`, ignoring ASCII case.
pub open spec fn contains_ci(hay: Seq<char>, needle: Seq<char>) -> bool {
    exists|i: int|
        0 <= i <= hay.len() - needle.len() && #[trigger] lower_spec(hay).subrange(
            i,
            i + needle.len(),
        ) == lower_spec(needle)
}

/// Case-insensitive substring test.
pub fn str_contains_ci(hay: &str, needle: &str) -> (r: bool)
    ensures
        r == contains_ci(hay@, needle@),
{
    let hlen = hay.unicode_len();
    let nlen = needle.unicode_len();
    if nlen > hlen {
        proof {
            if contains_ci(hay@, needle@) {
                let i = choose|i: int|
                    0 <= i <= hay@.len() - needle@.len() && (#[trigger] lower_spec(hay@).subrange(
                        i,
                        i + needle@.len(),
                    )) == lower_spec(needle@);
            }
        }
        return false;
    }
    let mut i: usize = 0;
    while i <= hlen - nlen
        invariant
            hlen == hay@.len(),
            nlen == needle@.len(),
            nlen <= hlen,
            0 <= i <= hlen - nlen + 1,
            forall|p: int|
                0 <= p < i ==> (#[trigger] lower_spec(hay@).subrange(p, p + needle@.len()))
                    != lower_spec(needle@),
        decreases hlen - i,
    {
        let mut j: usize = 0;
        let mut all_eq = true;
        while j < nlen
            invariant
                hlen == hay@.len(),
                nlen == needle@.len(),
                nlen <= hlen,
                0 <= i <= hlen - nlen,
                0 <= j <= nlen,
                all_eq == forall|q: int|
                    0 <= q < j ==> lower_char_spec(hay@[i + q]) == lower_char_spec(
                        #[trigger] needle@[q],
                    ),
            decreases nlen - j,
        {
            let hc = lower_char(hay.get_char(i + j));
            let nc = lower_char(needle.get_char(j));
            if hc != nc {
                proof {
                    assert(lower_char_spec(hay@[i + j as int]) != lower_char_spec(
                        needle@[j as int],
                    ));
                }
                all_eq = false;
                j = nlen;
            } else {
                proof {
                    if all_eq {
                        assert forall|q: int|
                            0 <= q < j + 1 implies lower_char_spec(hay@[i + q]) == lower_char_spec(
                            #[trigger] needle@[q],
                        ) by {}
                    }
                }
                j = j + 1;
            }
        }
        if all_eq {
            proof {
                assert forall|q: int|
                    0 <= q < needle@.len() implies lower_spec(hay@).subrange(
                    i as int,
                    i + needle@.len(),
                )[q] == lower_spec(needle@)[q] by {
                    assert(lower_spec(hay@)[i + q] == lower_char_spec(hay@[i + q]));
                    assert(lower_spec(needle@)[q] == lower_char_spec(needle@[q]));
                }
                assert(lower_spec(hay@).subrange(i as int, i + needle@.len()) =~= lower_spec(
                    needle@,
                ));
            }
            return true;
        }
        proof {
            let q = choose|q: int|
                !(0 <= q < needle@.len() ==> lower_char_spec(hay@[i + q]) == lower_char_spec(
                    #[trigger] needle@[q],
                ));
            assert(lower_spec(hay@).subrange(i as int, i + needle@.len())[q] == lower_char_spec(
                hay@[i + q],
            ));
            assert(lower_spec(needle@)[q] == lower_char_spec(needle@[q]));
            assert(lower_spec(hay@).subrange(i as int, i + needle@.len()) != lower_spec(needle@));
        }
        i = i + 1;
    }
    proof {
        if contains_ci(hay@, needle@) {
            let p = choose|p: int|
                0 <= p <= hay@.len() - needle@.len() && (#[trigger] lower_spec(hay@).subrange(
                    p,
                    p + needle@.len(),
                )) == lower_spec(needle@);
        }
    }
    false
}

/// Whether one line passes the query: the optional type filter and the
/// optional case-insensitive substring, both of which an empty value waives.
pub open spec fn line_matches(
    m: GameMessage,
    filter_type: Option<SocketMessageType>,
    search: Seq<char>,
) -> bool {
    (match filter_type {
        Some(t) => m.message.message_type == t,
        None => true,
    }) && (search.len() == 0 || contains_ci(m.message.message@, search))
}

impl LogSession {
    /// A fresh session on a resolved port, before any message arrives.
    pub fn new(port: u16) -> (r: Self)
        ensures
            r.port == port,
            r.messages@.len() == 0,
    {
        LogSession { port, messages: Vec::new() }
    }

    /// Appends one message in arrival order and says whether it signals a
    /// crash: a Fatal message ends useful gameplay without necessarily
    /// closing the socket, so it is surfaced distinctly.
    pub fn push_message(&mut self, msg: GameMessage) -> (fatal: bool)
        ensures
            final(self).port == old(self).port,
            final(self).messages@ == old(self).messages@.push(msg),
            fatal == (msg.message.message_type == SocketMessageType::Fatal),
    {
        let fatal = matches!(msg.message.message_type, SocketMessageType::Fatal);
        self.messages.push(msg);
        fatal
    }

    /// Empties the in-memory buffer; the session and its file sink stay
    /// open, so history and live view stay decoupled.
    pub fn clear(&mut self)
        ensures
            final(self).port == old(self).port,
            final(self).messages@.len() == 0,
    {
        self.messages.clear();
    }

    /// The indices of the lines that pass the query, in arrival order, so a
    /// consumer can paginate without transferring message bodies.
    pub fn get_logs_indices(
        &self,
        filter_type: Option<SocketMessageType>,
        search: &str,
    ) -> (r: Vec<usize>)
        ensures
            forall|a: int, b: int| 0 <= a < b < r@.len() ==> r@[a] < r@[b],
            forall|k: int| 0 <= k < r@.len() ==> (#[trigger] r@[k]) < self.messages@.len(),
            forall|i: int|
                0 <= i < self.messages@.len() ==> (r@.contains(i as usize) <==> line_matches(
                    #[trigger] self.messages@[i],
                    filter_type,
                    search@,
                )),
    {
        let mut r: Vec<usize> = Vec::new();
        let n = self.messages.len();
        let mut i: usize = 0;
        while i < n
            invariant
                n == self.messages@.len(),
                0 <= i <= n,
                forall|a: int, b: int| 0 <= a < b < r@.len() ==> r@[a] < r@[b],
                forall|k: int| 0 <= k < r@.len() ==> (#[trigger] r@[k]) < i,
                forall|j: int|
                    0 <= j < i ==> (r@.contains(j as usize) <==> line_matches(
                        #[trigger] self.messages@[j],
                        filter_type,
                        search@,
                    )),
            decreases n - i,
        {
            let m = &self.messages[i];
            let type_ok = match filter_type {
                Some(t) => {
                    let mt = m.message.message_type;
                    matches!(
                        (mt, t),
                        (SocketMessageType::Info, SocketMessageType::Info)
                        | (SocketMessageType::Warning, SocketMessageType::Warning)
                        | (SocketMessageType::Error, SocketMessageType::Error)
                        | (SocketMessageType::Fatal, SocketMessageType::Fatal)
                        | (SocketMessageType::Success, SocketMessageType::Success)
                        | (SocketMessageType::Debug, SocketMessageType::Debug)
                    )
                },
                None => true,
            };
            let search_ok = if search.unicode_len() == 0 {
                true
            } else {
                str_contains_ci(m.message.message.as_str(), search)
            };
            let ghost r0 = r@;
            if type_ok && search_ok {
                r.push(i);
                proof {
                    assert(r@ =~= r0.push(i));
                }
            }
            proof {
                assert forall|j: int|
                    0 <= j < i + 1 implies (r@.contains(j as usize) <==> line_matches(
                    #[trigger] self.messages@[j],
                    filter_type,
                    search@,
                )) by {
                    if type_ok && search_ok {
                        assert(r@[r@.len() - 1] == i);
                        if j < i {
                            assert(r0.contains(j as usize) <==> r@.contains(j as usize)) by {
                                if r0.contains(j as usize) {
                                    let k = choose|k: int|
                                        0 <= k < r0.len() && r0[k] == j as usize;
                                    assert(r@[k] == j as usize);
                                }
                                if r@.contains(j as usize) {
                                    let k = choose|k: int|
                                        0 <= k < r@.len() && r@[k] == j as usize;
                                    if k < r@.len() - 1 {
                                        assert(r0[k] == j as usize);
                                    }
                                }
                            }
                        } else {
                            assert(r@.contains(i as usize));
                        }
                    } else {
                        if j == i && r@.contains(i as usize) {
                            let k = choose|k: int| 0 <= k < r@.len() && r@[k] == i as usize;
                        }
                    }
                }
            }
            i = i + 1;
        }
        r
    }

    /// Full content of one line, fetched on demand; an index past the buffer
    /// is refused, never a panic.
    pub fn get_game_message(&self, line: usize) -> (r: Result<&GameMessage, Error>)
        ensures
            match r {
                Ok(m) => line < self.messages@.len() && *m == self.messages@[line as int],
                Err(e) => line >= self.messages@.len() && e is NotFound,
            },
    {
        if line < self.messages.len() {
            Ok(&self.messages[line])
        } else {
            Err(Error::NotFound(String::new()))
        }
    }
}

/// What pressing "start" does, given the user's settings and the sessions
/// already listening.
pub enum SessionLaunchPlan {
    /// Log forwarding is switched off: launch the game with no server.
    LaunchWithoutServer,
    /// Open a fresh log window, which will bind its own session.
    OpenLogWindow,
    /// Reuse the first session already listening and launch against its port.
    LaunchOnPort(u16),
}

/// The launch decision: no server when the user disabled it; a new window
/// when multi-window is on or no session is listening yet; otherwise the
/// game is pointed at the first session already listening.
pub fn plan_session_launch(
    no_log_server: bool,
    log_multi_window: bool,
    active_ports: &Vec<u16>,
) -> (r: SessionLaunchPlan)
    ensures
        no_log_server ==> r is LaunchWithoutServer,
        (!no_log_server && (log_multi_window || active_ports@.len() == 0)) ==> r is OpenLogWindow,
        (!no_log_server && !log_multi_window && active_ports@.len() > 0) ==> (r matches
            SessionLaunchPlan::LaunchOnPort(p) && p == active_ports@[0]),
{
    if no_log_server {
        SessionLaunchPlan::LaunchWithoutServer
    } else if log_multi_window || active_ports.len() == 0 {
        SessionLaunchPlan::OpenLogWindow
    } else {
        SessionLaunchPlan::LaunchOnPort(active_ports[0])
    }
}

} // verus!
