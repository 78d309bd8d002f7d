use vstd::prelude::*;
use vstd::utf8::{decode_utf8, valid_utf8};
use crate::text::{normalized, trim_and_lowercase};

verus! {

/// What `String::from_utf8_lossy` makes of a byte string.
pub uninterp spec fn utf8_lossy(bytes: Seq<u8>) -> Seq<char>;

/// `String::from_utf8_lossy` (made owned): decodes UTF-8, each invalid
/// sequence becoming U+FFFD. The result is named by `utf8_lossy`; on valid
/// UTF-8 it is the decoded text.
#[verifier::external_body]
pub(crate) fn decode_lossy(bytes: &[u8]) -> (s: String)
    ensures
        s@ == utf8_lossy(bytes@),
        valid_utf8(bytes@) ==> s@ == decode_utf8(bytes@),
{
    String::from_utf8_lossy(bytes).into_owned()
}

/// The text of a received byte string: UTF-8 decoded, each invalid
/// sequence replaced by U+FFFD.
pub fn decode_text(bytes: &[u8]) -> (s: String)
    ensures
        s@ == utf8_lossy(bytes@),
        valid_utf8(bytes@) ==> s@ == decode_utf8(bytes@),
{
    decode_lossy(bytes)
}

/// Names and the job titles of the people with those names.
pub struct EmployeeDirectory {
    entries: Vec<(String, String)>,
}

/// The entries hold each name once.
pub open spec fn names_distinct(e: Seq<(String, String)>) -> bool {
    forall|i: int, j: int| 0 <= i < j < e.len() ==> (#[trigger] e[i]).0@ != (#[trigger] e[j]).0@
}

/// Whether some entry holds the name `k`.
pub open spec fn holds_name(e: Seq<(String, String)>, k: Seq<char>) -> bool {
    exists|i: int| 0 <= i < e.len() && (#[trigger] e[i]).0@ == k
}

/// The map from names to job titles that the entries hold.
pub open spec fn entries_map(e: Seq<(String, String)>) -> Map<Seq<char>, Seq<char>> {
    Map::new(
        |k: Seq<char>| holds_name(e, k),
        |k: Seq<char>| e[choose|i: int| 0 <= i < e.len() && (#[trigger] e[i]).0@ == k].1@,
    )
}

proof fn lemma_entry_in_map(e: Seq<(String, String)>, i: int)
    requires
        names_distinct(e),
        0 <= i < e.len(),
    ensures
        entries_map(e).dom().contains(e[i].0@),
        entries_map(e)[e[i].0@] == e[i].1@,
{
    let k = e[i].0@;
    assert(holds_name(e, k));
    let c = choose|c: int| 0 <= c < e.len() && (#[trigger] e[c]).0@ == k;
    if c < i {
        assert(e[c].0@ != e[i].0@);
    } else if c > i {
        assert(e[i].0@ != e[c].0@);
    }
}

/// The entries after writing `entry` at position `i`: over the entry with
/// the same name, or at the end when no entry has that name.
pub open spec fn written(e: Seq<(String, String)>, i: int, entry: (String, String)) -> Seq<(String, String)> {
    if i < e.len() {
        e.update(i, entry)
    } else {
        e.push(entry)
    }
}

/// Writing an entry over the one with its name, or after all entries when
/// none has it, keeps the names distinct and records the entry in the map.
proof fn lemma_write_entry(old_e: Seq<(String, String)>, i: int, entry: (String, String))
    requires
        names_distinct(old_e),
        0 <= i <= old_e.len(),
        i < old_e.len() ==> old_e[i].0@ == entry.0@,
        i == old_e.len() ==> !holds_name(old_e, entry.0@),
    ensures
        names_distinct(written(old_e, i, entry)),
        entries_map(written(old_e, i, entry)) == entries_map(old_e).insert(entry.0@, entry.1@),
{
    let e = written(old_e, i, entry);
    let k = entry.0@;
    let v = entry.1@;
    assert(e[i] == entry);
    assert forall|j: int| 0 <= j < e.len() && j != i implies #[trigger] e[j] == old_e[j] by {}
    assert forall|a: int, b: int| 0 <= a < b < e.len() implies (#[trigger] e[a]).0@ != (#[trigger] e[b]).0@ by {
        if a == i {
            if i < old_e.len() {
                assert(old_e[a].0@ != old_e[b].0@);
            } else {
                assert(false);
            }
        } else if b == i {
            if i < old_e.len() {
                assert(old_e[a].0@ != old_e[b].0@);
            } else {
                assert(e[a] == old_e[a]);
            }
        } else {
            assert(old_e[a].0@ != old_e[b].0@);
        }
    }
    assert forall|x: Seq<char>| #[trigger] entries_map(e).dom().contains(x) <==> (entries_map(old_e).dom().contains(x)
        || x == k) by {
        if holds_name(e, x) {
            let j = choose|j: int| 0 <= j < e.len() && (#[trigger] e[j]).0@ == x;
            if j != i {
                assert(old_e[j].0@ == x);
            }
        }
        if holds_name(old_e, x) {
            let j = choose|j: int| 0 <= j < old_e.len() && (#[trigger] old_e[j]).0@ == x;
            if j == i {
                assert(e[i].0@ == x);
            } else {
                assert(e[j].0@ == x);
            }
        }
        if x == k {
            assert(e[i].0@ == x);
        }
    }
    assert forall|x: Seq<char>| #[trigger] entries_map(e).dom().contains(x) implies entries_map(e)[x]
        == entries_map(old_e).insert(k, v)[x] by {
        let j = choose|j: int| 0 <= j < e.len() && (#[trigger] e[j]).0@ == x;
        lemma_entry_in_map(e, j);
        if j != i {
            lemma_entry_in_map(old_e, j);
        }
    }
    assert(entries_map(e) =~= entries_map(old_e).insert(k, v));
}

/// The reply to a request: the job title of the person it names, or
/// "No such employee".
pub open spec fn reply_for(directory: Map<Seq<char>, Seq<char>>, name: Seq<char>) -> Seq<char> {
    if directory.dom().contains(name) {
        directory[name]
    } else {
        "No such employee"@
    }
}

/// What a connection handler does with what it read.
#[derive(Debug)]
pub enum ServerReply {
    /// Nothing was read: the client is gone.
    Disconnect,
    /// Send this text back.
    Send(String),
}

impl View for EmployeeDirectory {
    type V = Map<Seq<char>, Seq<char>>;

    closed spec fn view(&self) -> Map<Seq<char>, Seq<char>> {
        entries_map(self.entries@)
    }
}

impl EmployeeDirectory {
    /// Each name is held once.
    #[verifier::type_invariant]
    spec fn wf(self) -> bool {
        names_distinct(self.entries@)
    }

    /// An empty directory.
    pub fn new() -> (d: Self)
        ensures
            d@ == Map::<Seq<char>, Seq<char>>::empty(),
    {
        let d = EmployeeDirectory { entries: Vec::new() };
        assert(d@ =~= Map::<Seq<char>, Seq<char>>::empty());
        d
    }

    fn position(&self, name: &String) -> (r: Option<usize>)
        ensures
            match r {
                Some(i) => i < self.entries@.len() && self.entries@[i as int].0@ == name@,
                None => !holds_name(self.entries@, name@),
            },
    {
        let mut i: usize = 0;
        while i < self.entries.len()
            invariant
                i <= self.entries@.len(),
                forall|j: int| 0 <= j < i ==> (#[trigger] self.entries@[j]).0@ != name@,
            decreases self.entries@.len() - i,
        {
            if self.entries[i].0 == *name {
                return Some(i);
            }
            i = i + 1;
        }
        None
    }

    /// Records `job` as the job title of `name`, replacing an earlier one.
    pub fn insert(&mut self, name: String, job: String)
        ensures
            final(self)@ == old(self)@.insert(name@, job@),
    {
        proof {
            use_type_invariant(&*self);
        }
        let ghost old_e = self.entries@;
        let ghost entry = (name, job);
        let found = self.position(&name);
        let mut entries: Vec<(String, String)> = Vec::new();
        std::mem::swap(&mut entries, &mut self.entries);
        match found {
            Some(i) => {
                proof {
                    lemma_write_entry(old_e, i as int, entry);
                }
                entries.set(i, (name, job));
            },
            None => {
                proof {
                    lemma_write_entry(old_e, old_e.len() as int, entry);
                }
                entries.push((name, job));
            },
        }
        self.entries = entries;
    }

    /// The job title of `name`, if the directory holds the name.
    pub fn get(&self, name: &str) -> (r: Option<String>)
        ensures
            r is Some <==> self@.dom().contains(name@),
            r matches Some(job) ==> job@ == self@[name@],
    {
        proof {
            use_type_invariant(self);
        }
        let key = String::from_str(name);
        match self.position(&key) {
            Some(i) => {
                proof {
                    lemma_entry_in_map(self.entries@, i as int);
                }
                Some(self.entries[i].1.clone())
            },
            None => None,
        }
    }

    /// The directory that the servers answer from.
    pub fn with_default_staff() -> (d: Self)
        ensures
            d@ == map![
                "john"@ => "manager"@,
                "jane"@ => "steno"@,
                "jim"@ => "clerk"@,
                "jack"@ => "salesman"@,
            ],
    {
        let mut d = EmployeeDirectory::new();
        d.insert(String::from_str("john"), String::from_str("manager"));
        d.insert(String::from_str("jane"), String::from_str("steno"));
        d.insert(String::from_str("jim"), String::from_str("clerk"));
        d.insert(String::from_str("jack"), String::from_str("salesman"));
        d
    }

    /// The answer to a request: the bytes are decoded (invalid UTF-8
    /// replaced), trimmed of white space and lowercased, and the result
    /// looked up as a name.
    pub fn job_title(&self, request: &[u8]) -> (r: String)
        ensures
            r@ == reply_for(self@, normalized(utf8_lossy(request@))),
            valid_utf8(request@) ==> r@ == reply_for(self@, normalized(decode_utf8(request@))),
    {
        let text = decode_text(request);
        let name = trim_and_lowercase(text.as_str());
        self.reply_for_name(name.as_str())
    }

    /// The reply to a name as the servers look it up (already trimmed and
    /// lowercased): its job title, or "No such employee".
    pub fn reply_for_name(&self, name: &str) -> (r: String)
        ensures
            r@ == reply_for(self@, name@),
    {
        match self.get(name) {
            Some(job) => job,
            None => String::from_str("No such employee"),
        }
    }

    /// What a connection does with the bytes it read: nothing read means
    /// the client left; otherwise the job title is sent back.
    pub fn reply_to(&self, received: &[u8]) -> (r: ServerReply)
        ensures
            received@.len() == 0 ==> r is Disconnect,
            received@.len() > 0 ==> (r matches ServerReply::Send(s) && s@ == reply_for(
                self@,
                normalized(utf8_lossy(received@)),
            )),
            received@.len() > 0 && valid_utf8(received@) ==> (r matches ServerReply::Send(s) && s@
                == reply_for(self@, normalized(decode_utf8(received@)))),
    {
        if received.len() == 0 {
            ServerReply::Disconnect
        } else {
            ServerReply::Send(self.job_title(received))
        }
    }
}

/// Looking a name up after recording it gives the recorded job title, and
/// recording one name leaves the others as they were.
pub proof fn law_lookup_after_insert(
    directory: Map<Seq<char>, Seq<char>>,
    name: Seq<char>,
    job: Seq<char>,
    other: Seq<char>,
)
    requires
        other != name,
    ensures
        reply_for(directory.insert(name, job), name) == job,
        reply_for(directory.insert(name, job), other) == reply_for(directory, other),
{
}

} // verus!
