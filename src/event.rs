//! Recognition of the server's log lines.
//!
//! Each kind of line is `<anything>[Server thread/INFO]: <name><rest>`. Where
//! a line can be read in several ways, the reading taken is the one with the
//! last possible header, and for that header the longest possible name; the
//! wildcard parts match any characters.
use vstd::prelude::*;
use crate::text::chars_of;

verus! {

/// The four kinds of line the server writes that the bridge relays.
#[derive(PartialEq, Eq, Structural, Clone, Copy, Debug)]
pub enum Kind {
    Join,
    Quit,
    Achieve,
    Message,
}

/// What a recognised line says, over character sequences.
pub enum EventModel {
    Join(Seq<char>),
    Quit(Seq<char>),
    Achieve(Seq<char>, Seq<char>),
    Message(Seq<char>, Seq<char>),
}

/// A recognised log line.
#[derive(Clone, Debug, PartialEq, Eq)]
pub enum Event {
    /// A player joined the server.
    Join(String),
    /// A player left the server.
    Quit(String),
    /// A player made an advancement: the player, then the advancement.
    Achieve(String, String),
    /// A player spoke in the game's chat: the player, then the text.
    Message(String, String),
}

impl View for Event {
    type V = EventModel;

    open spec fn view(&self) -> EventModel {
        match self {
            Event::Join(n) => EventModel::Join(n@),
            Event::Quit(n) => EventModel::Quit(n@),
            Event::Achieve(n, a) => EventModel::Achieve(n@, a@),
            Event::Message(n, m) => EventModel::Message(n@, m@),
        }
    }
}

/// `w` stands in `s` from position `i` on.
pub open spec fn occurs_at(s: Seq<char>, i: int, w: Seq<char>) -> bool {
    0 <= i && i + w.len() <= s.len() && s.subrange(i, i + w.len()) == w
}

/// `w` stands in `s` at some position not before `from`.
pub open spec fn occurs_from(s: Seq<char>, from: int, w: Seq<char>) -> bool {
    exists|m: int| from <= m && #[trigger] occurs_at(s, m, w)
}

/// The text that precedes the player's name in a line of kind `k`.
pub open spec fn header(k: Kind) -> Seq<char> {
    match k {
        Kind::Message => "[Server thread/INFO]: <"@,
        _ => "[Server thread/INFO]: "@,
    }
}

/// After a name ending at `j`: `[<no ]>] logged in with entity id <any> at <any>`.
pub open spec fn join_rest(s: Seq<char>, j: int) -> bool {
    &&& 0 <= j < s.len()
    &&& s[j] == '['
    &&& exists|c: int| #![trigger s[c]] j < c < s.len() && s[c] == ']'
        && (forall|t: int| j < t < c ==> s[t] != ']')
        && occurs_at(s, c + 1, " logged in with entity id "@)
        && occurs_from(s, c + 1 + " logged in with entity id "@.len(), " at "@)
}

/// After a name ending at `j`: ` has made the advancement [<any>]<any>`.
pub open spec fn achieve_rest(s: Seq<char>, j: int) -> bool {
    &&& occurs_at(s, j, " has made the advancement ["@)
    &&& exists|e: int| #![trigger s[e]] j + " has made the advancement ["@.len() <= e < s.len()
        && s[e] == ']'
}

/// The name runs from `a` to `j` and what follows it fits a line of kind `k`.
pub open spec fn rest_ok(k: Kind, s: Seq<char>, a: int, j: int) -> bool {
    match k {
        Kind::Join => join_rest(s, j),
        Kind::Quit => occurs_at(s, j, " left the game"@),
        Kind::Achieve => achieve_rest(s, j),
        Kind::Message => (forall|t: int| a <= t < j ==> s[t] != ' ' && s[t] != ']')
            && occurs_at(s, j, "> "@),
    }
}

/// `s` reads as a line of kind `k` with the header at `i` and the name ending at `j`.
pub open spec fn capture_ok(k: Kind, s: Seq<char>, i: int, j: int) -> bool {
    &&& occurs_at(s, i, header(k))
    &&& i + header(k).len() <= j <= s.len()
    &&& rest_ok(k, s, i + header(k).len(), j)
}

/// `(i, j)` is the reading taken: no later header fits, and for this header no
/// longer name.
pub open spec fn best(k: Kind, s: Seq<char>, i: int, j: int) -> bool {
    &&& capture_ok(k, s, i, j)
    &&& forall|i2: int, j2: int| #[trigger] capture_ok(k, s, i2, j2) ==> i2 < i || (i2 == i && j2 <= j)
}

/// `s` reads as a line of kind `k` in some way.
pub open spec fn matches_kind(k: Kind, s: Seq<char>) -> bool {
    exists|i: int, j: int| #[trigger] capture_ok(k, s, i, j)
}

/// The reading taken of a line of kind `k`.
pub open spec fn reading(k: Kind, s: Seq<char>) -> (int, int) {
    choose|p: (int, int)| best(k, s, p.0, p.1)
}

/// The player's name in a line of kind `k`.
pub open spec fn name_of(k: Kind, s: Seq<char>) -> Seq<char> {
    s.subrange(reading(k, s).0 + header(k).len(), reading(k, s).1)
}

/// Where the advancement ends: the last `]` of the line.
pub open spec fn last_close(s: Seq<char>) -> int {
    choose|e: int| 0 <= e < s.len() && s[e] == ']' && forall|t: int| e < t < s.len() ==> s[t] != ']'
}

/// The advancement in a line of kind `Achieve`.
pub open spec fn advancement_of(s: Seq<char>) -> Seq<char> {
    s.subrange(reading(Kind::Achieve, s).1 + " has made the advancement ["@.len(), last_close(s))
}

/// The chat text in a line of kind `Message`.
pub open spec fn said_of(s: Seq<char>) -> Seq<char> {
    s.subrange(reading(Kind::Message, s).1 + "> "@.len(), s.len() as int)
}

/// What a line says: the first kind, in the order join, quit, advancement,
/// message, that the line reads as.
pub open spec fn parsed(s: Seq<char>) -> Option<EventModel> {
    if matches_kind(Kind::Join, s) {
        Some(model_of(Kind::Join, s))
    } else if matches_kind(Kind::Quit, s) {
        Some(model_of(Kind::Quit, s))
    } else if matches_kind(Kind::Achieve, s) {
        Some(model_of(Kind::Achieve, s))
    } else if matches_kind(Kind::Message, s) {
        Some(model_of(Kind::Message, s))
    } else {
        None
    }
}

/// The sentence that announces an event in the chat.
pub open spec fn announcement(e: EventModel) -> Seq<char> {
    match e {
        EventModel::Join(n) => n + " has joined the server!"@,
        EventModel::Quit(n) => n + " has left the server."@,
        EventModel::Achieve(n, a) => n + " unlocked achievement ["@ + a + "]!"@,
        EventModel::Message(n, m) => "["@ + n + "]: "@ + m,
    }
}

/// Whether `w` stands in `s` from position `i` on.
fn occurs(s: &Vec<char>, i: usize, w: &str) -> (r: bool)
    ensures
        r == occurs_at(s@, i as int, w@),
{
    let m = w.unicode_len();
    let n = s.len();
    if i > n || m > n - i {
        return false;
    }
    let mut t: usize = 0;
    while t < m
        invariant
            m == w@.len(),
            n == s@.len(),
            i + m <= n,
            t <= m,
            forall|u: int| 0 <= u < t ==> s@[i + u] == w@[u],
        decreases m - t,
    {
        assert(i + t < s@.len());
        if s[i + t] != w.get_char(t) {
            assert(s@.subrange(i as int, i + m)[t as int] != w@[t as int]);
            return false;
        }
        t = t + 1;
    }
    assert(s@.subrange(i as int, i + m) =~= w@);
    true
}

/// Whether `w` stands in `s` at some position not before `from`.
fn occurs_after(s: &Vec<char>, from: usize, w: &str) -> (r: bool)
    ensures
        r == occurs_from(s@, from as int, w@),
{
    let mut m: usize = from;
    while m < s.len()
        invariant
            from <= m,
            forall|m2: int| from <= m2 < m ==> !occurs_at(s@, m2, w@),
        decreases s@.len() - m,
    {
        if occurs(s, m, w) {
            return true;
        }
        m = m + 1;
    }
    let r = occurs(s, m, w);
    assert(r == occurs_from(s@, from as int, w@)) by {
        if r {
            assert(occurs_at(s@, m as int, w@));
        } else {
            assert forall|m2: int| from <= m2 implies !#[trigger] occurs_at(s@, m2, w@) by {
                if m2 > m {
                    assert(m2 + w@.len() > s@.len());
                }
            }
        }
    }
    r
}

/// The header text of kind `k`.
fn header_text(k: Kind) -> (r: &'static str)
    ensures
        r@ == header(k),
{
    match k {
        Kind::Message => "[Server thread/INFO]: <",
        _ => "[Server thread/INFO]: ",
    }
}

/// The last `]` of `s` at or after `from`, if any.
fn last_close_from(s: &Vec<char>, from: usize) -> (r: Option<usize>)
    ensures
        match r {
            Some(e) => from <= e < s@.len() && s@[e as int] == ']'
                && forall|t: int| e < t < s@.len() ==> s@[t] != ']',
            None => forall|t: int| from <= t < s@.len() ==> s@[t] != ']',
        },
{
    let mut e: usize = s.len();
    while e > from
        invariant
            e <= s@.len(),
            forall|t: int| e <= t < s@.len() ==> s@[t] != ']',
        decreases e,
    {
        e = e - 1;
        if s[e] == ']' {
            return Some(e);
        }
    }
    None
}

/// Whether what follows a name ending at `j` fits a join line.
fn join_rest_at(s: &Vec<char>, j: usize) -> (r: bool)
    ensures
        r == join_rest(s@, j as int),
{
    let n = s.len();
    if j >= n || s[j] != '[' {
        return false;
    }
    let mut c: usize = j + 1;
    while c < n && s[c] != ']'
        invariant
            n == s@.len(),
            j < c <= n,
            forall|t: int| j < t < c ==> s@[t] != ']',
        decreases n - c,
    {
        c = c + 1;
    }
    let logged = " logged in with entity id ";
    let r = c < n && occurs(s, c + 1, logged) && occurs_after(s, c + 1 + logged.unicode_len(), " at ");
    assert(r == join_rest(s@, j as int)) by {
        if r {
            assert(s@[c as int] == ']');
        } else if join_rest(s@, j as int) {
            let c2 = choose|c2: int| #![trigger s@[c2]] j < c2 < s@.len() && s@[c2] == ']'
                && (forall|t: int| j < t < c2 ==> s@[t] != ']')
                && occurs_at(s@, c2 + 1, " logged in with entity id "@)
                && occurs_from(s@, c2 + 1 + " logged in with entity id "@.len(), " at "@);
            if c2 < c {
                assert(s@[c2] != ']');
            } else if c2 > c {
                assert(c < n);
                assert(s@[c as int] != ']');
            }
        }
    }
    r
}

/// Whether what follows a name ending at `j` fits an advancement line.
fn achieve_rest_at(s: &Vec<char>, j: usize) -> (r: bool)
    ensures
        r == achieve_rest(s@, j as int),
{
    let made = " has made the advancement [";
    let n = s.len();
    if !occurs(s, j, made) {
        return false;
    }
    let b = j + made.unicode_len();
    assert(b <= n);
    let r = last_close_from(s, b).is_some();
    assert(r == achieve_rest(s@, j as int)) by {
        if !r && achieve_rest(s@, j as int) {
            let e = choose|e: int| #![trigger s@[e]] j + " has made the advancement ["@.len() <= e < s@.len()
                && s@[e] == ']';
            assert(s@[e] != ']');
        }
    }
    r
}

/// Whether a name from `a` to `j` and what follows it fit a chat line.
fn message_rest_at(s: &Vec<char>, a: usize, j: usize) -> (r: bool)
    requires
        a <= j <= s@.len(),
    ensures
        r == rest_ok(Kind::Message, s@, a as int, j as int),
{
    let mut t: usize = a;
    while t < j
        invariant
            a <= t <= j,
            j <= s@.len(),
            forall|u: int| a <= u < t ==> s@[u] != ' ' && s@[u] != ']',
        decreases j - t,
    {
        if s[t] == ' ' || s[t] == ']' {
            return false;
        }
        t = t + 1;
    }
    occurs(s, j, "> ")
}

/// Whether a name from `a` to `j` and what follows it fit a line of kind `k`.
fn rest_ok_at(k: Kind, s: &Vec<char>, a: usize, j: usize) -> (r: bool)
    requires
        a <= j <= s@.len(),
    ensures
        r == rest_ok(k, s@, a as int, j as int),
{
    match k {
        Kind::Join => join_rest_at(s, j),
        Kind::Quit => occurs(s, j, " left the game"),
        Kind::Achieve => achieve_rest_at(s, j),
        Kind::Message => message_rest_at(s, a, j),
    }
}

/// The longest name after a header that ends at `a`, the header standing at `i`.
fn longest_name(k: Kind, s: &Vec<char>, i: usize, a: usize) -> (r: Option<usize>)
    requires
        occurs_at(s@, i as int, header(k)),
        a == i + header(k).len(),
    ensures
        match r {
            Some(j) => capture_ok(k, s@, i as int, j as int)
                && forall|j2: int| j < j2 ==> !#[trigger] capture_ok(k, s@, i as int, j2),
            None => forall|j2: int| !#[trigger] capture_ok(k, s@, i as int, j2),
        },
{
    let n = s.len();
    let mut j: usize = n;
    while j >= a
        invariant
            n == s@.len(),
            a <= n,
            a == i + header(k).len(),
            occurs_at(s@, i as int, header(k)),
            j <= n,
            forall|j2: int| j < j2 ==> !#[trigger] capture_ok(k, s@, i as int, j2),
        decreases j,
    {
        if rest_ok_at(k, s, a, j) {
            return Some(j);
        }
        if j == 0 {
            return None;
        }
        j = j - 1;
    }
    None
}

/// The reading taken of `s` as a line of kind `k`: the last header that fits,
/// then the longest name.
fn find_reading(k: Kind, s: &Vec<char>) -> (r: Option<(usize, usize)>)
    ensures
        match r {
            Some((i, j)) => best(k, s@, i as int, j as int),
            None => !matches_kind(k, s@),
        },
{
    let n = s.len();
    let h = header_text(k);
    let hl = h.unicode_len();
    let mut i: usize = n;
    loop
        invariant
            n == s@.len(),
            hl == header(k).len(),
            h@ == header(k),
            i <= n,
            forall|i2: int, j2: int| i < i2 && #[trigger] capture_ok(k, s@, i2, j2) ==> false,
        decreases i,
    {
        if occurs(s, i, h) {
            if let Some(j) = longest_name(k, s, i, i + hl) {
                return Some((i, j));
            }
        }
        if i == 0 {
            return None;
        }
        i = i - 1;
    }
}

/// The reading chosen by the search is the one named by `reading`.
proof fn lemma_reading(k: Kind, s: Seq<char>, i: int, j: int)
    requires
        best(k, s, i, j),
    ensures
        matches_kind(k, s),
        reading(k, s) == (i, j),
{
    assert(capture_ok(k, s, i, j));
    assert(exists|q: (int, int)| best(k, s, q.0, q.1)) by {
        let q = (i, j);
        assert(best(k, s, q.0, q.1));
    }
    let p = reading(k, s);
    assert(best(k, s, p.0, p.1));
    assert(capture_ok(k, s, p.0, p.1));
}

/// The last `]` found from some point on is the last `]` of the line.
proof fn lemma_last_close(s: Seq<char>, e: int)
    requires
        0 <= e < s.len(),
        s[e] == ']',
        forall|t: int| e < t < s.len() ==> s[t] != ']',
    ensures
        last_close(s) == e,
{
    let c = last_close(s);
    assert(0 <= c < s.len() && s[c] == ']' && forall|t: int| c < t < s.len() ==> s[t] != ']');
    if c < e {
        assert(s[e] != ']');
    } else if c > e {
        assert(s[c] != ']');
    }
}

/// What a line of kind `k` says.
pub open spec fn model_of(k: Kind, s: Seq<char>) -> EventModel {
    match k {
        Kind::Join => EventModel::Join(name_of(k, s)),
        Kind::Quit => EventModel::Quit(name_of(k, s)),
        Kind::Achieve => EventModel::Achieve(name_of(k, s), advancement_of(s)),
        Kind::Message => EventModel::Message(name_of(k, s), said_of(s)),
    }
}

/// Reads `line` as a line of kind `k`, if it is one.
fn read_kind(k: Kind, line: &str, s: &Vec<char>) -> (r: Option<Event>)
    requires
        s@ == line@,
    ensures
        match r {
            Some(e) => matches_kind(k, s@) && e@ == model_of(k, s@),
            None => !matches_kind(k, s@),
        },
{
    let n = s.len();
    match find_reading(k, s) {
        None => None,
        Some((i, j)) => {
            proof {
                lemma_reading(k, s@, i as int, j as int);
            }
            let a = i + header_text(k).unicode_len();
            let name = line.substring_char(a, j).to_string();
            match k {
                Kind::Join => Some(Event::Join(name)),
                Kind::Quit => Some(Event::Quit(name)),
                Kind::Achieve => {
                    let made = " has made the advancement [";
                    assert(occurs_at(s@, j as int, made@));
                    let b = j + made.unicode_len();
                    match last_close_from(s, b) {
                        Some(e) => {
                            proof {
                                lemma_last_close(s@, e as int);
                            }
                            Some(Event::Achieve(name, line.substring_char(b, e).to_string()))
                        },
                        None => {
                            assert(achieve_rest(s@, j as int));
                            let ghost e = choose|e: int| #![trigger s@[e]] b <= e < s@.len() && s@[e] == ']';
                            assert(s@[e] != ']');
                            None
                        },
                    }
                },
                Kind::Message => {
                    let tail = "> ";
                    assert(occurs_at(s@, j as int, tail@));
                    let b = j + tail.unicode_len();
                    Some(Event::Message(name, line.substring_char(b, n).to_string()))
                },
            }
        },
    }
}

impl Event {
    /// Reads one line of the server's output; a line of none of the four
    /// kinds gives `None`.
    pub fn parse(line: &str) -> (r: Option<Event>)
        ensures
            match r {
                Some(e) => parsed(line@) == Some(e@),
                None => parsed(line@) is None,
            },
    {
        let s = chars_of(line);
        if let Some(e) = read_kind(Kind::Join, line, &s) {
            return Some(e);
        }
        if let Some(e) = read_kind(Kind::Quit, line, &s) {
            return Some(e);
        }
        if let Some(e) = read_kind(Kind::Achieve, line, &s) {
            return Some(e);
        }
        read_kind(Kind::Message, line, &s)
    }

    /// The sentence that announces this event in the chat.
    pub fn announce(&self) -> (r: String)
        ensures
            r@ == announcement(self@),
    {
        let mut r = String::new();
        match self {
            Event::Join(n) => {
                r.append(n.as_str());
                r.append(" has joined the server!");
            },
            Event::Quit(n) => {
                r.append(n.as_str());
                r.append(" has left the server.");
            },
            Event::Achieve(n, a) => {
                r.append(n.as_str());
                r.append(" unlocked achievement [");
                r.append(a.as_str());
                r.append("]!");
            },
            Event::Message(n, m) => {
                r.append("[");
                r.append(n.as_str());
                r.append("]: ");
                r.append(m.as_str());
            },
        }
        r
    }
}

} // verus!
