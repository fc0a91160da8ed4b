//! The registry of running preview servers, the change events it gives rise
//! to, registration, and heartbeat eviction.

use vstd::prelude::*;
use vstd::string::*;

verus! {

/// One registered preview server: its display name and its URL text.
#[derive(Clone, Debug)]
pub struct Entry {
    pub name: String,
    pub url: String,
}

/// The value of an entry: name and URL text.
pub type EntryView = (Seq<char>, Seq<char>);

impl View for Entry {
    type V = EntryView;

    open spec fn view(&self) -> EntryView {
        (self.name@, self.url@)
    }
}

impl Entry {
    pub fn new(name: String, url: String) -> (r: Entry)
        ensures
            r@ == (name@, url@),
    {
        Entry { name, url }
    }

    /// A copy of this entry with equal contents.
    pub fn duplicate(&self) -> (r: Entry)
        ensures
            r@ == self@,
    {
        Entry { name: self.name.clone(), url: self.url.clone() }
    }
}

/// The values of a list of entries, in order.
pub open spec fn views_of(v: Seq<Entry>) -> Seq<EntryView> {
    v.map_values(|e: Entry| e@)
}

/// A registry transition: `added` tells an addition from a removal.
#[derive(Clone, Debug)]
pub struct ChangeEvent {
    pub added: bool,
    pub name: String,
    pub url: String,
}

/// The JSON string literal for `s`, as serde_json writes it.
pub uninterp spec fn json_quoted(s: Seq<char>) -> Seq<char>;

/// Whether serde_json writes every character of `s` as it is: no quote,
/// no backslash and no control character below U+0020.
pub open spec fn needs_no_escape(s: Seq<char>) -> bool {
    forall|i: int| 0 <= i < s.len() ==> #[trigger] s[i] != '"' && s[i] != '\\' && s[i] as u32 >= 0x20
}

/// Relies on serde_json's serialisation of a string value: the JSON string
/// literal for `s`, quotes and escapes included. Its escape table leaves
/// every other character as it is, so text that needs no escape comes back
/// only wrapped in quotes.
#[verifier::external_body]
fn quote_json(s: &str) -> (r: String)
    ensures
        r@ == json_quoted(s@),
        needs_no_escape(s@) ==> r@ == seq!['"'] + s@ + seq!['"'],
{
    serde_json::Value::from(s).to_string()
}

/// The text frame that carries an event to dashboard subscribers:
/// `{"added":<bool>,"name":<string>,"url":<string>}`.
pub open spec fn event_text(added: bool, name: Seq<char>, url: Seq<char>) -> Seq<char> {
    "{\"added\":"@ + (if added {
        "true"@
    } else {
        "false"@
    }) + ",\"name\":"@ + json_quoted(name) + ",\"url\":"@ + json_quoted(url) + "}"@
}

/// The frame for an event whose name and URL need no escape: each is
/// written between quotes as it is.
pub open spec fn plain_event_text(added: bool, name: Seq<char>, url: Seq<char>) -> Seq<char> {
    "{\"added\":"@ + (if added {
        "true"@
    } else {
        "false"@
    }) + ",\"name\":"@ + (seq!['"'] + name + seq!['"']) + ",\"url\":"@ + (seq!['"'] + url + seq!['"']) + "}"@
}

impl ChangeEvent {
    /// A copy of this event with equal contents.
    pub fn duplicate(&self) -> (r: ChangeEvent)
        ensures
            event_view(r) == event_view(*self),
    {
        ChangeEvent { added: self.added, name: self.name.clone(), url: self.url.clone() }
    }

    /// The event as a JSON text frame (see `event_text`).
    pub fn to_json(&self) -> (r: String)
        ensures
            r@ == event_text(self.added, self.name@, self.url@),
            needs_no_escape(self.name@) && needs_no_escape(self.url@) ==> r@ == plain_event_text(
                self.added,
                self.name@,
                self.url@,
            ),
    {
        let mut out = String::from_str("{\"added\":");
        if self.added {
            out.append("true");
        } else {
            out.append("false");
        }
        out.append(",\"name\":");
        out.append(quote_json(self.name.as_str()).as_str());
        out.append(",\"url\":");
        out.append(quote_json(self.url.as_str()).as_str());
        out.append("}");
        out
    }
}

/// `s` with `e` appended, unless `s` already holds it.
pub open spec fn added(s: Seq<EntryView>, e: EntryView) -> Seq<EntryView> {
    if s.contains(e) {
        s
    } else {
        s.push(e)
    }
}

/// The entries of `s` that `victims` does not hold, in order.
pub open spec fn retained(s: Seq<EntryView>, victims: Seq<EntryView>) -> Seq<EntryView>
    decreases s.len(),
{
    if s.len() == 0 {
        s
    } else if victims.contains(s.last()) {
        retained(s.drop_last(), victims)
    } else {
        retained(s.drop_last(), victims).push(s.last())
    }
}

/// The entries of `s` that `victims` holds, in order.
pub open spec fn taken(s: Seq<EntryView>, victims: Seq<EntryView>) -> Seq<EntryView>
    decreases s.len(),
{
    if s.len() == 0 {
        s
    } else if victims.contains(s.last()) {
        taken(s.drop_last(), victims).push(s.last())
    } else {
        taken(s.drop_last(), victims)
    }
}

/// The removal event for an entry.
pub open spec fn removal_event(e: EntryView) -> (bool, Seq<char>, Seq<char>) {
    (false, e.0, e.1)
}

/// The value of a change event: added, name, URL text.
pub open spec fn event_view(e: ChangeEvent) -> (bool, Seq<char>, Seq<char>) {
    (e.added, e.name@, e.url@)
}

/// The entries of `snapshot` whose probe failed, in order.
pub open spec fn failed(snapshot: Seq<EntryView>, reachable: Seq<bool>) -> Seq<EntryView>
    decreases snapshot.len(),
{
    if snapshot.len() == 0 || reachable.len() == 0 {
        Seq::empty()
    } else if reachable.last() {
        failed(snapshot.drop_last(), reachable.drop_last())
    } else {
        failed(snapshot.drop_last(), reachable.drop_last()).push(snapshot.last())
    }
}

proof fn lemma_views_of(v: Seq<Entry>)
    ensures
        views_of(v).len() == v.len(),
        forall|i: int| 0 <= i < v.len() ==> #[trigger] views_of(v)[i] == v[i]@,
{
}

proof fn lemma_views_push(v: Seq<Entry>, e: Entry)
    ensures
        views_of(v.push(e)) == views_of(v).push(e@),
{
    assert(views_of(v.push(e)) =~= views_of(v).push(e@));
}

/// What `retained` keeps is what `s` holds and `victims` does not; it keeps
/// entries distinct.
pub proof fn lemma_retained_contains(s: Seq<EntryView>, victims: Seq<EntryView>)
    ensures
        forall|x: EntryView| #[trigger]
            retained(s, victims).contains(x) <==> s.contains(x) && !victims.contains(x),
        s.no_duplicates() ==> retained(s, victims).no_duplicates(),
    decreases s.len(),
{
    if s.len() > 0 {
        let p = s.drop_last();
        let l = s.last();
        let r = retained(p, victims);
        lemma_retained_contains(p, victims);
        assert(s =~= p.push(l));
        assert forall|x: EntryView| s.contains(x) <==> p.contains(x) || x == l by {
            lemma_push_contains(p, l, x);
        }
        assert forall|x: EntryView| r.push(l).contains(x) <==> r.contains(x) || x == l by {
            lemma_push_contains(r, l, x);
        }
        assert forall|x: EntryView|
            retained(s, victims).contains(x) <==> s.contains(x) && !victims.contains(x) by {
            if victims.contains(l) {
                assert(retained(s, victims) == r);
                assert(r.contains(x) <==> p.contains(x) && !victims.contains(x));
            } else {
                assert(retained(s, victims) == r.push(l));
                assert(r.contains(x) <==> p.contains(x) && !victims.contains(x));
            }
        }
        if s.no_duplicates() {
            assert(p.no_duplicates()) by {
                assert forall|i: int, j: int| 0 <= i < p.len() && 0 <= j < p.len() && i != j implies p[i] != p[j] by {
                    assert(s[i] == p[i] && s[j] == p[j]);
                }
            }
            assert(!p.contains(l)) by {
                if p.contains(l) {
                    let i = choose|i: int| 0 <= i < p.len() && p[i] == l;
                    assert(s[i] == s[s.len() - 1]);
                }
            }
            if !victims.contains(l) {
                assert(!r.contains(l));
                assert forall|i: int, j: int| 0 <= i < r.len() + 1 && 0 <= j < r.len() + 1 && i != j implies r.push(l)[i] != r.push(l)[j] by {
                    if i < r.len() && j < r.len() {
                    } else if i < r.len() {
                        assert(r.contains(r[i]));
                    } else {
                        assert(r.contains(r[j]));
                    }
                }
            }
        }
    }
}

proof fn lemma_push_contains(r: Seq<EntryView>, l: EntryView, x: EntryView)
    ensures
        r.push(l).contains(x) <==> r.contains(x) || x == l,
{
    if r.push(l).contains(x) {
        let i = choose|i: int| 0 <= i < r.len() + 1 && r.push(l)[i] == x;
        if i < r.len() {
            assert(r[i] == x);
        }
    }
    if r.contains(x) {
        let i = choose|i: int| 0 <= i < r.len() && r[i] == x;
        assert(r.push(l)[i] == x);
    }
    if x == l {
        assert(r.push(l)[r.len() as int] == x);
    }
}

/// One registry operation: add an entry, or remove every entry equal to one
/// of a list.
#[derive(Clone, Debug)]
pub enum RegistryOp {
    Add(Entry),
    Remove(Vec<Entry>),
}

/// The table that one operation makes of `s`.
pub open spec fn op_step(s: Seq<EntryView>, op: RegistryOp) -> Seq<EntryView> {
    match op {
        RegistryOp::Add(e) => added(s, e@),
        RegistryOp::Remove(v) => retained(s, views_of(v@)),
    }
}

/// The table that a sequence of operations, in order, makes of `s`.
pub open spec fn replay(s: Seq<EntryView>, ops: Seq<RegistryOp>) -> Seq<EntryView>
    decreases ops.len(),
{
    if ops.len() == 0 {
        s
    } else {
        op_step(replay(s, ops.drop_last()), ops.last())
    }
}

/// Whether `op` names the entry `x`.
pub open spec fn touches(op: RegistryOp, x: EntryView) -> bool {
    match op {
        RegistryOp::Add(e) => e@ == x,
        RegistryOp::Remove(v) => views_of(v@).contains(x),
    }
}

pub open spec fn is_addition(op: RegistryOp) -> bool {
    op is Add
}

proof fn lemma_added(s: Seq<EntryView>, e: EntryView)
    ensures
        forall|x: EntryView| #[trigger] added(s, e).contains(x) <==> s.contains(x) || x == e,
        s.no_duplicates() ==> added(s, e).no_duplicates(),
{
    assert forall|x: EntryView| #[trigger] added(s, e).contains(x) <==> s.contains(x) || x == e by {
        lemma_push_contains(s, e, x);
    }
    if s.no_duplicates() && !s.contains(e) {
        let r = s.push(e);
        assert forall|i: int, j: int| 0 <= i < r.len() && 0 <= j < r.len() && i != j implies r[i] != r[j] by {
            if i < s.len() && j < s.len() {
            } else if i < s.len() {
                assert(s.contains(s[i]));
            } else {
                assert(s.contains(s[j]));
            }
        }
    }
}

/// Replaying adds and removes loses and duplicates nothing: the table holds
/// no entry twice, and it holds `x` exactly when the last operation naming
/// `x` added it, or when no operation names `x` and the table held it to
/// begin with.
pub proof fn lemma_replay_exact(start: Seq<EntryView>, ops: Seq<RegistryOp>, x: EntryView)
    requires
        start.no_duplicates(),
    ensures
        replay(start, ops).no_duplicates(),
        replay(start, ops).contains(x) <==> (exists|i: int|
            0 <= i < ops.len() && is_addition(ops[i]) && touches(ops[i], x) && forall|j: int|
                i < j < ops.len() ==> !touches(#[trigger] ops[j], x)) || (start.contains(x) && forall|j: int|
            0 <= j < ops.len() ==> !touches(#[trigger] ops[j], x)),
    decreases ops.len(),
{
    if ops.len() > 0 {
        let p = ops.drop_last();
        let o = ops.last();
        let n = ops.len() as int;
        let prev = replay(start, p);
        lemma_replay_exact(start, p, x);
        match o {
            RegistryOp::Add(e) => {
                lemma_added(prev, e@);
            },
            RegistryOp::Remove(v) => {
                lemma_retained_contains(prev, views_of(v@));
            },
        }
        let late = exists|i: int|
            0 <= i < n && is_addition(ops[i]) && touches(ops[i], x) && forall|j: int|
                i < j < n ==> !touches(#[trigger] ops[j], x);
        let late_p = exists|i: int|
            0 <= i < n - 1 && is_addition(p[i]) && touches(p[i], x) && forall|j: int|
                i < j < n - 1 ==> !touches(#[trigger] p[j], x);
        let never = forall|j: int| 0 <= j < n ==> !touches(#[trigger] ops[j], x);
        let never_p = forall|j: int| 0 <= j < n - 1 ==> !touches(#[trigger] p[j], x);
        assert(ops[n - 1] == o);
        if touches(o, x) {
            if is_addition(o) {
                assert(late) by {
                    assert(0 <= n - 1 < n && is_addition(ops[n - 1]) && touches(ops[n - 1], x));
                }
            } else {
                assert(!late) by {
                    if late {
                        let i = choose|i: int|
                            0 <= i < n && is_addition(ops[i]) && touches(ops[i], x) && forall|j: int|
                                i < j < n ==> !touches(#[trigger] ops[j], x);
                        assert(i != n - 1);
                        assert(!touches(ops[n - 1], x));
                    }
                }
                assert(!never) by {
                    assert(touches(ops[n - 1], x));
                }
            }
        } else {
            assert(late == late_p) by {
                if late {
                    let i = choose|i: int|
                        0 <= i < n && is_addition(ops[i]) && touches(ops[i], x) && forall|j: int|
                            i < j < n ==> !touches(#[trigger] ops[j], x);
                    assert(i < n - 1);
                    assert(p[i] == ops[i]);
                    assert forall|j: int| i < j < n - 1 implies !touches(#[trigger] p[j], x) by {
                        assert(p[j] == ops[j]);
                    }
                }
                if late_p {
                    let i = choose|i: int|
                        0 <= i < n - 1 && is_addition(p[i]) && touches(p[i], x) && forall|j: int|
                            i < j < n - 1 ==> !touches(#[trigger] p[j], x);
                    assert(p[i] == ops[i]);
                    assert forall|j: int| i < j < n implies !touches(#[trigger] ops[j], x) by {
                        if j < n - 1 {
                            assert(p[j] == ops[j]);
                        }
                    }
                }
            }
            assert(never == never_p) by {
                if never_p {
                    assert forall|j: int| 0 <= j < n implies !touches(#[trigger] ops[j], x) by {
                        if j < n - 1 {
                            assert(p[j] == ops[j]);
                        }
                    }
                }
                if never {
                    assert forall|j: int| 0 <= j < n - 1 implies !touches(#[trigger] p[j], x) by {
                        assert(p[j] == ops[j]);
                    }
                }
            }
        }
    }
}

/// The table of registered servers. Entries are distinct; insertion order is
/// kept as display order.
pub struct Registry {
    entries: Vec<Entry>,
}

impl View for Registry {
    type V = Seq<EntryView>;

    closed spec fn view(&self) -> Seq<EntryView> {
        views_of(self.entries@)
    }
}

/// Whether `v` holds an entry equal to `e`.
fn holds(v: &Vec<Entry>, e: &Entry) -> (r: bool)
    ensures
        r == views_of(v@).contains(e@),
{
    let mut i: usize = 0;
    while i < v.len()
        invariant
            i <= v@.len(),
            forall|j: int| 0 <= j < i ==> v@[j]@ != e@,
        decreases v@.len() - i,
    {
        if v[i].name == e.name && v[i].url == e.url {
            assert(views_of(v@)[i as int] == e@);
            return true;
        }
        i = i + 1;
    }
    proof {
        if views_of(v@).contains(e@) {
            let j = choose|j: int| 0 <= j < views_of(v@).len() && views_of(v@)[j] == e@;
            assert(v@[j]@ == e@);
        }
    }
    false
}

impl Registry {
    /// Entries are pairwise distinct.
    pub open spec fn wf(&self) -> bool {
        self@.no_duplicates()
    }

    pub fn new() -> (r: Registry)
        ensures
            r@ == Seq::<EntryView>::empty(),
            r.wf(),
    {
        let r = Registry { entries: Vec::new() };
        assert(r@ =~= Seq::<EntryView>::empty());
        r
    }

    /// Appends `e` unless an identical entry is present; returns whether it
    /// was appended.
    pub fn add(&mut self, e: Entry) -> (r: bool)
        requires
            old(self).wf(),
        ensures
            final(self).wf(),
            final(self)@ == added(old(self)@, e@),
            r == !old(self)@.contains(e@),
    {
        if holds(&self.entries, &e) {
            return false;
        }
        let ghost before = self.entries@;
        self.entries.push(e);
        proof {
            assert(views_of(self.entries@) =~= views_of(before).push(e@));
        }
        true
    }

    /// Removes every entry that `victims` holds and returns the removed
    /// entries in table order.
    pub fn remove(&mut self, victims: &Vec<Entry>) -> (r: Vec<Entry>)
        requires
            old(self).wf(),
        ensures
            final(self).wf(),
            final(self)@ == retained(old(self)@, views_of(victims@)),
            views_of(r@) == taken(old(self)@, views_of(victims@)),
    {
        let ghost s = self@;
        let ghost vv = views_of(victims@);
        let mut kept: Vec<Entry> = Vec::new();
        let mut gone: Vec<Entry> = Vec::new();
        let mut i: usize = 0;
        while i < self.entries.len()
            invariant
                s == self@,
                vv == views_of(victims@),
                i <= self.entries@.len(),
                views_of(kept@) == retained(s.take(i as int), vv),
                views_of(gone@) == taken(s.take(i as int), vv),
            decreases self.entries@.len() - i,
        {
            let e = self.entries[i].duplicate();
            proof {
                lemma_views_of(self.entries@);
                assert(s.take(i as int + 1).drop_last() =~= s.take(i as int));
                assert(s.take(i as int + 1).last() == e@);
            }
            let ghost k0 = kept@;
            let ghost g0 = gone@;
            if holds(victims, &e) {
                gone.push(e);
                proof {
                    lemma_views_push(g0, e);
                    assert(taken(s.take(i as int + 1), vv) == taken(s.take(i as int), vv).push(e@));
                    assert(retained(s.take(i as int + 1), vv) == retained(s.take(i as int), vv));
                }
            } else {
                kept.push(e);
                proof {
                    lemma_views_push(k0, e);
                    assert(retained(s.take(i as int + 1), vv) == retained(s.take(i as int), vv).push(e@));
                    assert(taken(s.take(i as int + 1), vv) == taken(s.take(i as int), vv));
                }
            }
            i = i + 1;
        }
        proof {
            lemma_views_of(self.entries@);
            assert(s.take(s.len() as int) =~= s);
            lemma_retained_contains(s, vv);
        }
        self.entries = kept;
        gone
    }

    /// Performs one operation (see `op_step`).
    pub fn apply(&mut self, op: &RegistryOp)
        requires
            old(self).wf(),
        ensures
            final(self).wf(),
            final(self)@ == op_step(old(self)@, *op),
    {
        match op {
            RegistryOp::Add(e) => {
                self.add(e.duplicate());
            },
            RegistryOp::Remove(v) => {
                self.remove(v);
            },
        }
    }

    /// A copy of the table, in order.
    pub fn snapshot(&self) -> (r: Vec<Entry>)
        ensures
            views_of(r@) == self@,
    {
        let mut out: Vec<Entry> = Vec::new();
        let mut i: usize = 0;
        proof {
            lemma_views_of(self.entries@);
            assert(views_of(out@) =~= self@.take(0));
        }
        while i < self.entries.len()
            invariant
                i <= self.entries@.len(),
                self@.len() == self.entries@.len(),
                views_of(out@) == self@.take(i as int),
            decreases self.entries@.len() - i,
        {
            let d = self.entries[i].duplicate();
            let ghost o0 = out@;
            out.push(d);
            proof {
                lemma_views_push(o0, d);
                lemma_views_of(self.entries@);
                assert(self@.take(i as int + 1) =~= self@.take(i as int).push(d@));
            }
            i = i + 1;
        }
        out
    }

    /// The table as (name, URL text) pairs, in order.
    pub fn list_ports(&self) -> (r: Vec<(String, String)>)
        ensures
            r@.len() == self@.len(),
            forall|i: int| 0 <= i < r@.len() ==> (r@[i].0@, r@[i].1@) == #[trigger] self@[i],
    {
        let mut out: Vec<(String, String)> = Vec::new();
        let mut i: usize = 0;
        while i < self.entries.len()
            invariant
                i <= self.entries@.len(),
                out@.len() == i,
                forall|j: int| 0 <= j < i ==> (out@[j].0@, out@[j].1@) == #[trigger] self@[j],
            decreases self.entries@.len() - i,
        {
            let e = &self.entries[i];
            out.push((e.name.clone(), e.url.clone()));
            i = i + 1;
        }
        out
    }

    /// Completes a registration whose self-probe came back `reachable`: on
    /// success the entry is added (if not present already) and the addition
    /// event returned; a failed probe changes nothing.
    pub fn accept_registration(&mut self, name: String, url: String, reachable: bool) -> (r: Option<ChangeEvent>)
        requires
            old(self).wf(),
        ensures
            final(self).wf(),
            reachable ==> final(self)@ == added(old(self)@, (name@, url@)),
            !reachable ==> final(self)@ == old(self)@,
            r is Some <==> reachable,
            r matches Some(ev) ==> event_view(ev) == (true, name@, url@),
    {
        if !reachable {
            return None;
        }
        let ev = ChangeEvent { added: true, name: name.clone(), url: url.clone() };
        self.add(Entry { name, url });
        Some(ev)
    }

    /// Evicts the entries whose probe failed. `snapshot` is the table as it
    /// was probed and `reachable[i]` the outcome for `snapshot[i]`. Removal
    /// is by exact match, so entries added since the snapshot stay. Returns
    /// one removal event per removed entry, in table order.
    pub fn evict_unreachable(&mut self, snapshot: &Vec<Entry>, reachable: &Vec<bool>) -> (r: Vec<ChangeEvent>)
        requires
            old(self).wf(),
            snapshot@.len() == reachable@.len(),
        ensures
            final(self).wf(),
            final(self)@ == retained(old(self)@, failed(views_of(snapshot@), reachable@)),
            r@.len() == taken(old(self)@, failed(views_of(snapshot@), reachable@)).len(),
            forall|i: int| 0 <= i < r@.len() ==> event_view(#[trigger] r@[i]) == removal_event(
                taken(old(self)@, failed(views_of(snapshot@), reachable@))[i],
            ),
    {
        let dead = failed_entries(snapshot, reachable);
        let gone = self.remove(&dead);
        let mut events: Vec<ChangeEvent> = Vec::new();
        let mut i: usize = 0;
        while i < gone.len()
            invariant
                i <= gone@.len(),
                events@.len() == i,
                forall|j: int| 0 <= j < i ==> event_view(#[trigger] events@[j]) == removal_event(gone@[j]@),
            decreases gone@.len() - i,
        {
            let e = &gone[i];
            events.push(ChangeEvent { added: false, name: e.name.clone(), url: e.url.clone() });
            i = i + 1;
        }
        proof {
            assert forall|j: int| 0 <= j < events@.len() implies event_view(#[trigger] events@[j]) == removal_event(
                taken(old(self)@, failed(views_of(snapshot@), reachable@))[j],
            ) by {
                assert(views_of(gone@)[j] == gone@[j]@);
            }
        }
        events
    }
}

/// The entries of `snapshot` whose probe outcome in `reachable` is false.
pub fn failed_entries(snapshot: &Vec<Entry>, reachable: &Vec<bool>) -> (r: Vec<Entry>)
    requires
        snapshot@.len() == reachable@.len(),
    ensures
        views_of(r@) == failed(views_of(snapshot@), reachable@),
{
    let mut out: Vec<Entry> = Vec::new();
    let mut i: usize = 0;
    while i < snapshot.len()
        invariant
            i <= snapshot@.len(),
            snapshot@.len() == reachable@.len(),
            views_of(out@) == failed(views_of(snapshot@).take(i as int), reachable@.take(i as int)),
        decreases snapshot@.len() - i,
    {
        proof {
            assert(views_of(snapshot@).take(i as int + 1).drop_last() =~= views_of(snapshot@).take(i as int));
            assert(reachable@.take(i as int + 1).drop_last() =~= reachable@.take(i as int));
        }
        let ghost o0 = out@;
        if !reachable[i] {
            out.push(snapshot[i].duplicate());
            proof {
                assert(views_of(out@) =~= views_of(o0).push(snapshot@[i as int]@));
            }
        }
        i = i + 1;
    }
    proof {
        assert(views_of(snapshot@).take(snapshot@.len() as int) =~= views_of(snapshot@));
        assert(reachable@.take(snapshot@.len() as int) =~= reachable@);
    }
    out
}

} // verus!
