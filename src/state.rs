//! The registry of players currently on the server.
use vstd::prelude::*;
use crate::text::{same_text, join_with, decimal, decimal_text, joined, views_of};

verus! {

/// The set of players for whom a join has been seen and no quit since.
///
/// Each name is held once; the order of the list is the order of arrival.
pub struct State {
    online: Vec<String>,
}

impl View for State {
    type V = Set<Seq<char>>;

    open spec fn view(&self) -> Set<Seq<char>> {
        self.names().to_set()
    }
}

impl State {
    /// The names in the order in which they are listed.
    pub closed spec fn names(&self) -> Seq<Seq<char>> {
        self.online@.map_values(|s: String| s@)
    }

    /// No name is listed twice.
    pub open spec fn wf(&self) -> bool {
        self.names().no_duplicates()
    }

    /// An empty registry.
    pub fn new() -> (r: State)
        ensures
            r.wf(),
            r@ == Set::<Seq<char>>::empty(),
            r.names().len() == 0,
    {
        let r = State { online: Vec::new() };
        assert(r.names() =~= Seq::<Seq<char>>::empty());
        r
    }

    /// The position of `player` in the list, if it is there.
    fn position(&self, player: &str) -> (r: Option<usize>)
        ensures
            match r {
                Some(i) => i < self.names().len() && self.names()[i as int] == player@,
                None => !self.names().contains(player@),
            },
    {
        let mut i: usize = 0;
        while i < self.online.len()
            invariant
                i <= self.online@.len(),
                self.names().len() == self.online@.len(),
                forall|k: int| 0 <= k < i ==> self.names()[k] != player@,
            decreases self.online@.len() - i,
        {
            if same_text(self.online[i].as_str(), player) {
                return Some(i);
            }
            i = i + 1;
        }
        None
    }

    /// Records that `player` joined; a name already present stays as it is.
    pub fn insert_player(&mut self, player: &str)
        requires
            old(self).wf(),
        ensures
            final(self).wf(),
            final(self)@ == old(self)@.insert(player@),
            old(self)@.contains(player@) ==> final(self).names() == old(self).names(),
            !old(self)@.contains(player@) ==> final(self).names() == old(self).names().push(player@),
    {
        if self.position(player).is_none() {
            let ghost before = self.names();
            self.online.push(player.to_string());
            assert(self.names() =~= before.push(player@));
            assert(self.names().to_set() =~= before.to_set().insert(player@)) by {
                before.lemma_push_to_set_commute(player@);
            }
        } else {
            assert(old(self)@.insert(player@) =~= old(self)@);
        }
    }

    /// Records that `player` left; a name not present changes nothing.
    pub fn remove_player(&mut self, player: &str)
        requires
            old(self).wf(),
        ensures
            final(self).wf(),
            final(self)@ == old(self)@.remove(player@),
    {
        match self.position(player) {
            Some(i) => {
                let ghost before = self.names();
                self.online.remove(i);
                assert(self.names() =~= before.remove(i as int));
                proof {
                    lemma_remove_unique(before, i as int);
                }
            },
            None => {
                assert(old(self)@.remove(player@) =~= old(self)@);
            },
        }
    }

    /// The players online, each once, in order of arrival.
    pub fn online(&self) -> (r: &Vec<String>)
        ensures
            views_of(r@) == self.names(),
    {
        &self.online
    }

    /// The answer to a query of who is online: the count and the names.
    pub fn listing(&self) -> (r: String)
        ensures
            r@ == online_reply(self.names()),
    {
        if self.online.len() == 0 {
            return "Nobody is online.".to_string();
        }
        let mut r = decimal_text(self.online.len());
        r.append(" online: ");
        let names = join_with(&self.online, ", ");
        r.append(names.as_str());
        r
    }
}

impl Default for State {
    /// An empty registry.
    fn default() -> (r: State)
        ensures
            r.wf(),
            r@ == Set::<Seq<char>>::empty(),
            r.names().len() == 0,
    {
        State::new()
    }
}

/// The answer to a query of who is online, given the names in order:
/// `<count> online: <names joined by ", ">`, or a plain sentence when nobody is.
pub open spec fn online_reply(names: Seq<Seq<char>>) -> Seq<char> {
    if names.len() == 0 {
        "Nobody is online."@
    } else {
        decimal(names.len()) + " online: "@ + joined(names, ", "@)
    }
}

/// Taking out the element at `i` of a list without duplicates takes exactly
/// that value out of its set, and leaves no duplicates.
proof fn lemma_remove_unique(s: Seq<Seq<char>>, i: int)
    requires
        s.no_duplicates(),
        0 <= i < s.len(),
    ensures
        s.remove(i).no_duplicates(),
        s.remove(i).to_set() == s.to_set().remove(s[i]),
{
    let r = s.remove(i);
    assert forall|a: int, b: int| 0 <= a < r.len() && 0 <= b < r.len() && a != b
        implies r[a] != r[b] by {
        let a2 = if a < i { a } else { a + 1 };
        let b2 = if b < i { b } else { b + 1 };
        assert(r[a] == s[a2] && r[b] == s[b2]);
    }
    assert forall|x: Seq<char>| r.to_set().contains(x) <==> s.to_set().remove(s[i]).contains(x) by {
        if r.contains(x) {
            let a = choose|a: int| 0 <= a < r.len() && r[a] == x;
            let a2 = if a < i { a } else { a + 1 };
            assert(s[a2] == x);
            assert(a2 != i);
        }
        if s.contains(x) && x != s[i] {
            let a = choose|a: int| 0 <= a < s.len() && s[a] == x;
            assert(a != i);
            let a2 = if a < i { a } else { a - 1 };
            assert(r[a2] == x);
        }
    }
    assert(r.to_set() =~= s.to_set().remove(s[i]));
}

} // verus!
