//! The item table file: one `<id>,<code-name>` entry per line. Lines that
//! do not read as such are skipped; a later line for an id wins.

use vstd::prelude::*;
use vstd::utf8::{decode_utf8, valid_utf8};

use crate::codec::text_from_utf8;
use crate::messages::ItemDb;

verus! {

pub open spec fn is_digit(b: u8) -> bool {
    0x30 <= b <= 0x39
}

/// The value of a run of decimal digits.
pub open spec fn decimal(s: Seq<u8>) -> nat
    decreases s.len(),
{
    if s.len() == 0 {
        0
    } else {
        decimal(s.drop_last()) * 10 + (s.last() - 0x30) as nat
    }
}

/// `s` without its leading `+`, if it has one.
pub open spec fn unsigned_part(s: Seq<u8>) -> Seq<u8> {
    if s.len() > 0 && s[0] == 0x2B {
        s.drop_first()
    } else {
        s
    }
}

/// An unsigned 32-bit number written in decimal, with an optional `+`.
pub open spec fn number_text(s: Seq<u8>) -> Option<u32> {
    let d = unsigned_part(s);
    if d.len() > 0 && (forall|i: int| 0 <= i < d.len() ==> is_digit(#[trigger] d[i])) && decimal(d)
        <= u32::MAX {
        Some(decimal(d) as u32)
    } else {
        None
    }
}

/// Where the first `b` of `s` stands, or `s.len()` where there is none.
#[verifier::opaque]
pub open spec fn find(s: Seq<u8>, b: u8) -> int {
    if exists|i: int| 0 <= i < s.len() && s[i] == b {
        choose|i: int| 0 <= i < s.len() && s[i] == b && forall|j: int| 0 <= j < i ==> s[j] != b
    } else {
        s.len() as int
    }
}

/// The entry that a line spells: the number before its first comma, and
/// the text between that comma and the next one (or the end).
pub open spec fn line_entry(line: Seq<u8>) -> Option<(u32, Seq<char>)> {
    let c = find(line, 0x2C);
    let rest = line.subrange(c + 1, line.len() as int);
    let name = rest.subrange(0, find(rest, 0x2C));
    if c == line.len() {
        None
    } else {
        match number_text(line.subrange(0, c)) {
            Some(id) => if valid_utf8(name) {
                Some((id, decode_utf8(name)))
            } else {
                None
            },
            None => None,
        }
    }
}

/// The lines of `s`, split at each newline.
pub open spec fn lines(s: Seq<u8>) -> Seq<Seq<u8>>
    decreases s.len(),
{
    if s.len() == 0 {
        seq![Seq::empty()]
    } else {
        let init = lines(s.drop_last());
        if s.last() == 0x0A {
            init.push(Seq::empty())
        } else {
            init.update(init.len() - 1, init.last().push(s.last()))
        }
    }
}

/// The table that `ls` spell, a later line for an id winning.
pub open spec fn table_of(ls: Seq<Seq<u8>>) -> Map<u32, Seq<char>>
    decreases ls.len(),
{
    if ls.len() == 0 {
        Map::empty()
    } else {
        let t = table_of(ls.drop_last());
        match line_entry(ls.last()) {
            Some((id, name)) => t.insert(id, name),
            None => t,
        }
    }
}

proof fn lemma_lines_nonempty(s: Seq<u8>)
    ensures
        lines(s).len() >= 1,
    decreases s.len(),
{
    if s.len() > 0 {
        lemma_lines_nonempty(s.drop_last());
    }
}

/// The index of the first `b` in `s[from..]`, or `s.len()`.
fn find_from(s: &Vec<u8>, from: usize, b: u8) -> (r: usize)
    requires
        from <= s@.len(),
    ensures
        from + find(s@.subrange(from as int, s@.len() as int), b) == r,
        from <= r <= s@.len(),
{
    let ghost t = s@.subrange(from as int, s@.len() as int);
    let mut i = from;
    while i < s.len() && s[i] != b
        invariant
            from <= i <= s@.len(),
            forall|j: int| from <= j < i ==> s@[j] != b,
        decreases s@.len() - i,
    {
        i = i + 1;
    }
    proof {
        reveal(find);
        if i < s@.len() {
            assert(t[i - from] == b);
            let k = find(t, b);
            assert(forall|j: int| 0 <= j < i - from ==> t[j] != b);
            if k < i - from {
                assert(t[k] != b);
            }
            if k > i - from {
                assert(t[i - from] != b);
            }
        } else {
            assert(forall|j: int| 0 <= j < t.len() ==> t[j] != b);
        }
    }
    i
}

/// Reads a decimal number from `s[from..to]`.
fn parse_number(s: &Vec<u8>, from: usize, to: usize) -> (r: Option<u32>)
    requires
        from <= to <= s@.len(),
    ensures
        r == number_text(s@.subrange(from as int, to as int)),
{
    let ghost t = s@.subrange(from as int, to as int);
    let mut i = from;
    if i < to && s[i] == 0x2B {
        i = i + 1;
    }
    let ghost d = s@.subrange(i as int, to as int);
    assert(d =~= unsigned_part(t));
    if i == to {
        assert(d.len() == 0);
        return None;
    }
    let start = i;
    let mut value: u64 = 0;
    while i < to
        invariant
            start <= i <= to,
            to <= s@.len(),
            d == s@.subrange(start as int, to as int),
            from <= start,
            t == s@.subrange(from as int, to as int),
            d == unsigned_part(t),
            forall|j: int| start <= j < i ==> is_digit(#[trigger] s@[j]),
            value == decimal(s@.subrange(start as int, i as int)),
            value <= u32::MAX,
        decreases to - i,
    {
        let b = s[i];
        if !(0x30 <= b && b <= 0x39) {
            assert(!is_digit(d[i - start]));
            assert(!(forall|j: int| 0 <= j < d.len() ==> is_digit(#[trigger] d[j])));
            assert(number_text(t) is None);
            return None;
        }
        proof {
            assert(s@.subrange(start as int, i + 1).drop_last() =~= s@.subrange(start as int, i as int));
        }
        value = value * 10 + (b - 0x30) as u64;
        if value > 0xFFFF_FFFF {
            proof {
                assert(d.subrange(0, i + 1 - start) =~= s@.subrange(start as int, i + 1));
                if forall|j: int| 0 <= j < d.len() ==> is_digit(#[trigger] d[j]) {
                    lemma_decimal_grows(d, i + 1 - start);
                }
                assert(number_text(t) is None);
            }
            return None;
        }
        i = i + 1;
    }
    assert(s@.subrange(start as int, i as int) =~= d);
    Some(value as u32)
}

/// A longer run of digits is worth at least as much as its prefix.
proof fn lemma_decimal_grows(d: Seq<u8>, n: int)
    requires
        0 <= n <= d.len(),
        forall|i: int| 0 <= i < d.len() ==> is_digit(#[trigger] d[i]),
    ensures
        decimal(d) >= decimal(d.subrange(0, n)),
    decreases d.len() - n,
{
    if n < d.len() {
        lemma_decimal_grows(d, n + 1);
        assert(d.subrange(0, n + 1).drop_last() =~= d.subrange(0, n));
    } else {
        assert(d.subrange(0, n) =~= d);
    }
}

/// Reads one line of the table.
pub fn parse_item_line(line: &Vec<u8>) -> (r: Option<(u32, String)>)
    ensures
        match line_entry(line@) {
            Some((id, name)) => r is Some && (r->0).0 == id && (r->0).1@ == name,
            None => r is None,
        },
{
    let c = find_from(line, 0, 0x2C);
    assert(line@.subrange(0, line@.len() as int) =~= line@);
    assert(c == find(line@, 0x2C));
    if c == line.len() {
        return None;
    }
    let id = parse_number(line, 0, c)?;
    let end = find_from(line, c + 1, 0x2C);
    let mut name: Vec<u8> = Vec::new();
    let mut i = c + 1;
    while i < end
        invariant
            c + 1 <= i <= end <= line@.len(),
            name@ == line@.subrange(c + 1, i as int),
        decreases end - i,
    {
        name.push(line[i]);
        i = i + 1;
        assert(name@ =~= line@.subrange(c + 1, i as int));
    }
    proof {
        let rest = line@.subrange(c + 1, line@.len() as int);
        assert(rest.subrange(0, find(rest, 0x2C)) =~= name@);
    }
    let text = text_from_utf8(name)?;
    Some((id, text))
}

/// Builds the item table from the text of the table file.
pub fn load_item_table(text: &Vec<u8>) -> (r: ItemDb)
    ensures
        forall|id: u32|
            #![trigger r.table().contains_key(id)]
            r.table().contains_key(id) <==> table_of(lines(text@)).contains_key(id),
        forall|id: u32|
            #![trigger r.table()[id]]
            r.table().contains_key(id) ==> r.table()[id]@ == table_of(lines(text@))[id],
{
    let mut db = ItemDb::new();
    let mut line: Vec<u8> = Vec::new();
    let mut i: usize = 0;
    while i < text.len()
        invariant
            0 <= i <= text@.len(),
            lines(text@.subrange(0, i as int)).len() >= 1,
            line@ == lines(text@.subrange(0, i as int)).last(),
            forall|id: u32|
                #![trigger db.table().contains_key(id)]
                db.table().contains_key(id) <==> table_of(
                    lines(text@.subrange(0, i as int)).drop_last(),
                ).contains_key(id),
            forall|id: u32|
                #![trigger db.table()[id]]
                db.table().contains_key(id) ==> db.table()[id]@ == table_of(
                    lines(text@.subrange(0, i as int)).drop_last(),
                )[id],
        decreases text@.len() - i,
    {
        let ghost before = text@.subrange(0, i as int);
        let ghost after = text@.subrange(0, i + 1);
        proof {
            assert(after.drop_last() =~= before);
            lemma_lines_nonempty(before);
        }
        if text[i] == 0x0A {
            proof {
                assert(lines(after) == lines(before).push(Seq::empty()));
                assert(lines(after).drop_last() =~= lines(before));
                assert(lines(before).drop_last() =~= lines(before).drop_last());
            }
            add_line(&mut db, &line);
            line = Vec::new();
        } else {
            line.push(text[i]);
            proof {
                let l = lines(before);
                assert(lines(after) == l.update(l.len() - 1, l.last().push(text@[i as int])));
                assert(lines(after).drop_last() =~= l.drop_last());
            }
        }
        i = i + 1;
    }
    assert(text@.subrange(0, i as int) =~= text@);
    proof {
        lemma_lines_nonempty(text@);
    }
    add_line(&mut db, &line);
    db
}

/// Adds what one line spells, given that `db` holds what the lines before
/// it spell.
fn add_line(db: &mut ItemDb, line: &Vec<u8>)
    ensures
        match line_entry(line@) {
            Some((id, name)) => final(db).table().dom() == old(db).table().dom().insert(id)
                && final(db).table()[id]@ == name && forall|k: u32|
                k != id && #[trigger] old(db).table().contains_key(k) ==> final(db).table()[k]
                    == old(db).table()[k],
            None => final(db).table() == old(db).table(),
        },
{
    if let Some((id, name)) = parse_item_line(line) {
        db.insert(id, name);
        proof {
            assert(db.table().dom() =~= old(db).table().dom().insert(id));
        }
    }
}

} // verus!
