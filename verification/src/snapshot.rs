//! Snapshot publication: rendering one scan's aggregate as a JSON object
//! from canonical identity to minimum price, and a single-writer,
//! many-reader store whose readers always see a complete snapshot.

use vstd::prelude::*;
use vstd::rwlock::RwLock;
use crate::aggregate::PriceAggregate;
use crate::strip::chars_to_string;

verus! {

/// The decimal digit character for `d`.
pub open spec fn digit(d: nat) -> char {
    ((48 + d) as u8) as char
}

/// The lowercase hexadecimal digit character for `d`.
pub open spec fn hex_digit(d: nat) -> char {
    if d < 10 {
        digit(d)
    } else {
        ((87 + d) as u8) as char
    }
}

/// The decimal rendering of a nonnegative number.
pub open spec fn dec_nat(v: nat) -> Seq<char>
    decreases v,
{
    if v < 10 {
        seq![digit(v)]
    } else {
        dec_nat(v / 10).push(digit(v % 10))
    }
}

/// The decimal rendering of a price, with a leading minus sign when
/// negative.
pub open spec fn dec_spec(n: i64) -> Seq<char> {
    if n >= 0 {
        dec_nat(n as nat)
    } else {
        seq!['-'] + dec_nat((-(n as int)) as nat)
    }
}

/// How one character is escaped inside a JSON string: quote and backslash
/// get a backslash, control characters a `\u00..` escape, all else stands
/// as itself.
pub open spec fn esc_char(c: char) -> Seq<char> {
    if c == '"' {
        seq!['\\', '"']
    } else if c == '\\' {
        seq!['\\', '\\']
    } else if (c as u32) < 32 {
        seq!['\\', 'u', '0', '0', hex_digit((c as u32 / 16) as nat), hex_digit(
            (c as u32 % 16) as nat,
        )]
    } else {
        seq![c]
    }
}

/// A character sequence escaped for a JSON string.
pub open spec fn escape_spec(s: Seq<char>) -> Seq<char>
    decreases s.len(),
{
    if s.len() == 0 {
        Seq::empty()
    } else {
        escape_spec(s.drop_last()) + esc_char(s.last())
    }
}

/// One JSON object member: the escaped, quoted identity and its price.
pub open spec fn entry_json(e: (Seq<char>, i64)) -> Seq<char> {
    "\""@ + escape_spec(e.0) + "\":"@ + dec_spec(e.1)
}

/// The members of the JSON object, comma separated, in entry order.
pub open spec fn json_body(entries: Seq<(Seq<char>, i64)>) -> Seq<char>
    decreases entries.len(),
{
    if entries.len() == 0 {
        Seq::empty()
    } else if entries.len() == 1 {
        entry_json(entries[0])
    } else {
        json_body(entries.drop_last()) + ","@ + entry_json(entries.last())
    }
}

/// The JSON object mapping each entry's identity to its price.
pub open spec fn json_of(entries: Seq<(Seq<char>, i64)>) -> Seq<char> {
    "{"@ + json_body(entries) + "}"@
}

/// The entries of a vector of key-price pairs, as plain values.
pub open spec fn entries_seq(v: Seq<(String, i64)>) -> Seq<(Seq<char>, i64)> {
    v.map_values(|e: (String, i64)| (e.0@, e.1))
}

fn dec_digit(d: u8) -> (c: char)
    requires
        d < 10,
    ensures
        c == digit(d as nat),
{
    (48 + d) as char
}

fn hex_digit_exec(d: u8) -> (c: char)
    requires
        d < 16,
    ensures
        c == hex_digit(d as nat),
{
    if d < 10 {
        (48 + d) as char
    } else {
        (87 + d) as char
    }
}

fn dec_u64(x: u64) -> (r: Vec<char>)
    ensures
        r@ == dec_nat(x as nat),
    decreases x,
{
    if x < 10 {
        let mut r: Vec<char> = Vec::new();
        r.push(dec_digit(x as u8));
        proof {
            assert(r@ =~= dec_nat(x as nat));
        }
        r
    } else {
        let mut r = dec_u64(x / 10);
        r.push(dec_digit((x % 10) as u8));
        r
    }
}

/// Renders a price in decimal.
pub fn dec_i64(n: i64) -> (r: Vec<char>)
    ensures
        r@ == dec_spec(n),
{
    if n >= 0 {
        dec_u64(n as u64)
    } else {
        let mag: u64 = ((-(n + 1)) as u64) + 1;
        let digits = dec_u64(mag);
        let mut r: Vec<char> = Vec::new();
        r.push('-');
        let mut i: usize = 0;
        while i < digits.len()
            invariant
                i <= digits@.len(),
                r@ == seq!['-'] + digits@.take(i as int),
            decreases digits@.len() - i,
        {
            r.push(digits[i]);
            i = i + 1;
            proof {
                assert(seq!['-'] + digits@.take(i as int) =~= (seq!['-'] + digits@.take(i - 1)).push(
                    digits@[i - 1],
                ));
            }
        }
        proof {
            assert(digits@.take(digits@.len() as int) =~= digits@);
        }
        r
    }
}

/// Escapes a character sequence for use inside a JSON string.
pub fn escape_chars(s: &Vec<char>) -> (r: Vec<char>)
    ensures
        r@ == escape_spec(s@),
{
    let mut r: Vec<char> = Vec::new();
    let mut i: usize = 0;
    while i < s.len()
        invariant
            i <= s@.len(),
            r@ == escape_spec(s@.take(i as int)),
        decreases s@.len() - i,
    {
        let c = s[i];
        if c == '"' {
            r.push('\\');
            r.push('"');
        } else if c == '\\' {
            r.push('\\');
            r.push('\\');
        } else if (c as u32) < 32 {
            let v = c as u32;
            r.push('\\');
            r.push('u');
            r.push('0');
            r.push('0');
            r.push(hex_digit_exec((v / 16) as u8));
            r.push(hex_digit_exec((v % 16) as u8));
        } else {
            r.push(c);
        }
        i = i + 1;
        proof {
            assert(s@.take(i as int).drop_last() =~= s@.take(i - 1));
            assert(s@.take(i as int).last() == s@[i - 1]);
            assert(r@ =~= escape_spec(s@.take(i - 1)) + esc_char(s@[i - 1]));
        }
    }
    proof {
        assert(s@.take(s@.len() as int) =~= s@);
    }
    r
}

/// Renders the entries as a JSON object from identity to price, in entry
/// order.
pub fn render_json(entries: &Vec<(String, i64)>) -> (r: String)
    ensures
        r@ == json_of(entries_seq(entries@)),
{
    let mut out = "{".to_owned();
    let mut i: usize = 0;
    while i < entries.len()
        invariant
            i <= entries@.len(),
            out@ == "{"@ + json_body(entries_seq(entries@.take(i as int))),
        decreases entries@.len() - i,
    {
        if i > 0 {
            out.append(",");
        }
        let key_chars = crate::strip::str_to_chars(entries[i].0.as_str());
        let escaped = escape_chars(&key_chars);
        let price = dec_i64(entries[i].1);
        out.append("\"");
        out.append(chars_to_string(&escaped).as_str());
        out.append("\":");
        out.append(chars_to_string(&price).as_str());
        i = i + 1;
        proof {
            let t = entries_seq(entries@.take(i as int));
            assert(entries_seq(entries@.take(i - 1)) =~= t.drop_last());
            assert(t.last() == (entries@[i - 1].0@, entries@[i - 1].1));
            assert(out@ =~= "{"@ + json_body(t));
        }
    }
    proof {
        assert(entries@.take(entries@.len() as int) =~= entries@);
    }
    out.append("}");
    out
}

/// An immutable published snapshot: the served JSON body, with the entries
/// it renders carried as ghost state.
pub struct Snapshot {
    pub body: String,
    pub entries: Ghost<Seq<(Seq<char>, i64)>>,
}

/// A snapshot is well formed when its body is exactly the JSON rendering of
/// its entries: never partial, never torn.
pub open spec fn snapshot_wf(s: Snapshot) -> bool {
    s.body@ == json_of(s.entries@)
}

/// Whether a sequence of entries carries exactly the contents of an
/// aggregate: every entry is in the map, keys are distinct, and every key
/// of the map appears.
pub open spec fn entries_match(entries: Seq<(Seq<char>, i64)>, m: Map<Seq<char>, i64>) -> bool {
    &&& forall|i: int| 0 <= i < entries.len() ==> m.contains_pair((#[trigger] entries[i]).0, entries[i].1)
    &&& forall|i: int, j: int| 0 <= i < j < entries.len() ==> entries[i].0 != entries[j].0
    &&& forall|k: Seq<char>|
        m.dom().contains(k) ==> exists|i: int| 0 <= i < entries.len() && (#[trigger] entries[i]).0 == k
}

/// Renders a finished aggregate as a publishable snapshot; the snapshot's
/// entries carry the aggregate's contents exactly.
pub fn make_snapshot(agg: &PriceAggregate) -> (r: Snapshot)
    ensures
        snapshot_wf(r),
        entries_match(r.entries@, agg@),
{
    let entries = agg.entries();
    let body = render_json(&entries);
    let ghost view_entries = entries_seq(entries@);
    proof {
        assert forall|i: int| 0 <= i < view_entries.len() implies agg@.contains_pair(
            (#[trigger] view_entries[i]).0,
            view_entries[i].1,
        ) by {
            assert(agg@.contains_pair(entries@[i].0@, entries@[i].1));
        }
        assert forall|k: Seq<char>| agg@.dom().contains(k) implies exists|i: int|
            0 <= i < view_entries.len() && (#[trigger] view_entries[i]).0 == k by {
            let i = choose|i: int| 0 <= i < entries@.len() && (#[trigger] entries@[i]).0@ == k;
            assert(view_entries[i].0 == k);
        }
    }
    Snapshot { body, entries: Ghost(view_entries) }
}

/// The latest complete snapshot, swapped whole by the scan's single writer
/// and read concurrently without ever exposing a partial value.
pub struct SnapshotStore {
    lock: RwLock<Snapshot, spec_fn(Snapshot) -> bool>,
}

impl SnapshotStore {
    /// The store only ever holds well-formed snapshots.
    pub closed spec fn wf(&self) -> bool {
        self.lock.pred() == (|s: Snapshot| snapshot_wf(s))
    }

    /// A fresh store, holding the rendering of an empty aggregate.
    pub fn new() -> (r: Self)
        ensures
            r.wf(),
    {
        let empty: Vec<(String, i64)> = Vec::new();
        let body = render_json(&empty);
        let snap = Snapshot { body, entries: Ghost(entries_seq(empty@)) };
        SnapshotStore { lock: RwLock::new(snap, Ghost(|s: Snapshot| snapshot_wf(s))) }
    }

    /// Atomically replaces the visible snapshot with a complete new one.
    pub fn publish(&self, snap: Snapshot)
        requires
            self.wf(),
            snapshot_wf(snap),
    {
        let (_prev, handle) = self.lock.acquire_write();
        handle.release_write(snap);
    }

    /// Reads the current snapshot body without blocking a scan in progress;
    /// the result is always the complete rendering of some published
    /// aggregate, never a partial one.
    pub fn read(&self) -> (r: String)
        requires
            self.wf(),
        ensures
            exists|entries: Seq<(Seq<char>, i64)>| r@ == json_of(entries),
    {
        let handle = self.lock.acquire_read();
        let r = handle.borrow().body.clone();
        proof {
            let ghost snap = handle.view();
            assert(r@ == json_of(snap.entries@));
        }
        handle.release_read();
        r
    }
}

} // verus!
