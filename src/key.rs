use vstd::prelude::*;

verus! {

/// One logical key read from the terminal.
#[derive(Debug, PartialEq, Eq, Clone, Copy, Structural)]
pub enum EditorKey {
    ArrowLeft,
    ArrowRight,
    ArrowUp,
    ArrowDown,
    PageUp,
    PageDown,
    Home,
    End,
    Enter,
    Delete,
    Backspace,
    Escape,
    ControlSequence(char),
    NormalKey(char),
}

/// The escape sequences that name keys, with the key each one names.
pub open spec fn escape_table() -> Seq<(Seq<u8>, EditorKey)> {
    seq![
        (seq![0x1bu8, 0x5b, 0x41], EditorKey::ArrowUp),
        (seq![0x1bu8, 0x5b, 0x42], EditorKey::ArrowDown),
        (seq![0x1bu8, 0x5b, 0x43], EditorKey::ArrowRight),
        (seq![0x1bu8, 0x5b, 0x44], EditorKey::ArrowLeft),
        (seq![0x1bu8, 0x5b, 0x48], EditorKey::Home),
        (seq![0x1bu8, 0x5b, 0x46], EditorKey::End),
        (seq![0x1bu8, 0x5b, 0x31, 0x7e], EditorKey::Home),
        (seq![0x1bu8, 0x5b, 0x33, 0x7e], EditorKey::Delete),
        (seq![0x1bu8, 0x5b, 0x34, 0x7e], EditorKey::End),
        (seq![0x1bu8, 0x5b, 0x35, 0x7e], EditorKey::PageUp),
        (seq![0x1bu8, 0x5b, 0x36, 0x7e], EditorKey::PageDown),
        (seq![0x1bu8, 0x5b, 0x37, 0x7e], EditorKey::Home),
        (seq![0x1bu8, 0x5b, 0x38, 0x7e], EditorKey::End),
        (seq![0x1bu8, 0x4f, 0x48], EditorKey::Home),
        (seq![0x1bu8, 0x4f, 0x46], EditorKey::End),
    ]
}

/// The table entries that `buf` is a prefix of.
pub open spec fn candidates(buf: Seq<u8>) -> Seq<(Seq<u8>, EditorKey)> {
    escape_table().filter(|e: (Seq<u8>, EditorKey)| buf.is_prefix_of(e.0))
}

/// Decoding after an escape byte, with the first `k` bytes of `input` read:
/// no candidate left gives `Escape`; a single candidate equal to what was read
/// gives its key; otherwise one more byte is read. The result is the key and
/// the number of bytes it took, or `None` where `input` ends first.
pub open spec fn decode_escape(input: Seq<u8>, k: nat) -> Option<(EditorKey, nat)>
    decreases input.len() - k,
{
    if k > input.len() {
        None
    } else {
        let c = candidates(input.take(k as int));
        if c.len() == 0 {
            Some((EditorKey::Escape, k))
        } else if c.len() == 1 && c[0].0 == input.take(k as int) {
            Some((c[0].1, k))
        } else if k < input.len() {
            decode_escape(input, k + 1)
        } else {
            None
        }
    }
}

/// The first key of `input` and the number of bytes it took, or `None` where
/// `input` ends before a key is complete.
pub open spec fn decode_key(input: Seq<u8>) -> Option<(EditorKey, nat)> {
    if input.len() == 0 {
        None
    } else {
        let b = input[0];
        if b == 0x0d {
            Some((EditorKey::Enter, 1))
        } else if 0x01 <= b <= 0x1a {
            Some((EditorKey::ControlSequence(((b + 0x60) as u8) as char), 1))
        } else if b == 0x1b {
            if input.len() < 2 {
                None
            } else {
                decode_escape(input, 2)
            }
        } else if b == 0x7f {
            Some((EditorKey::Backspace, 1))
        } else {
            Some((EditorKey::NormalKey(b as char), 1))
        }
    }
}

pub open spec fn table_view(t: Seq<(Vec<u8>, EditorKey)>) -> Seq<(Seq<u8>, EditorKey)> {
    t.map_values(|e: (Vec<u8>, EditorKey)| (e.0@, e.1))
}

/// The escape sequences that name keys.
pub fn escape_sequence_table() -> (t: Vec<(Vec<u8>, EditorKey)>)
    ensures
        table_view(t@) == escape_table(),
{
    let t = vec![
        (vec![0x1bu8, 0x5b, 0x41], EditorKey::ArrowUp),
        (vec![0x1bu8, 0x5b, 0x42], EditorKey::ArrowDown),
        (vec![0x1bu8, 0x5b, 0x43], EditorKey::ArrowRight),
        (vec![0x1bu8, 0x5b, 0x44], EditorKey::ArrowLeft),
        (vec![0x1bu8, 0x5b, 0x48], EditorKey::Home),
        (vec![0x1bu8, 0x5b, 0x46], EditorKey::End),
        (vec![0x1bu8, 0x5b, 0x31, 0x7e], EditorKey::Home),
        (vec![0x1bu8, 0x5b, 0x33, 0x7e], EditorKey::Delete),
        (vec![0x1bu8, 0x5b, 0x34, 0x7e], EditorKey::End),
        (vec![0x1bu8, 0x5b, 0x35, 0x7e], EditorKey::PageUp),
        (vec![0x1bu8, 0x5b, 0x36, 0x7e], EditorKey::PageDown),
        (vec![0x1bu8, 0x5b, 0x37, 0x7e], EditorKey::Home),
        (vec![0x1bu8, 0x5b, 0x38, 0x7e], EditorKey::End),
        (vec![0x1bu8, 0x4f, 0x48], EditorKey::Home),
        (vec![0x1bu8, 0x4f, 0x46], EditorKey::End),
    ];
    assert(table_view(t@) =~= escape_table());
    t
}

/// `p` is a prefix of `s`.
fn starts_with(s: &Vec<u8>, p: &[u8]) -> (b: bool)
    ensures
        b == p@.is_prefix_of(s@),
{
    if p.len() > s.len() {
        return false;
    }
    let mut k: usize = 0;
    while k < p.len()
        invariant
            k <= p.len() <= s.len(),
            forall|j: int| 0 <= j < k ==> s@[j] == p@[j],
        decreases p.len() - k,
    {
        if s[k] != p[k] {
            return false;
        }
        k += 1;
    }
    assert(s@.take(p@.len() as int) =~= p@);
    true
}

/// The table entries that `buf` is a prefix of, in table order.
fn matching_entries(table: &Vec<(Vec<u8>, EditorKey)>, buf: &[u8]) -> (r: Vec<(Vec<u8>, EditorKey)>)
    requires
        table_view(table@) == escape_table(),
    ensures
        table_view(r@) == candidates(buf@),
{
    let ghost pred = |e: (Seq<u8>, EditorKey)| buf@.is_prefix_of(e.0);
    let mut r: Vec<(Vec<u8>, EditorKey)> = Vec::new();
    let mut i: usize = 0;
    while i < table.len()
        invariant
            i <= table.len(),
            table_view(table@) == escape_table(),
            pred == (|e: (Seq<u8>, EditorKey)| buf@.is_prefix_of(e.0)),
            table_view(r@) == table_view(table@).take(i as int).filter(pred),
        decreases table.len() - i,
    {
        let ghost tv = table_view(table@);
        assert(tv.take(i + 1) == tv.take(i as int).push(tv[i as int]));
        proof {
            tv.take(i as int).lemma_filter_push(tv[i as int], pred);
        }
        let ghost before = r@;
        if starts_with(&table[i].0, buf) {
            r.push((table[i].0.clone(), table[i].1));
            assert(table_view(r@) =~= table_view(before).push(tv[i as int]));
        }
        i += 1;
    }
    assert(table_view(table@).take(table.len() as int) == table_view(table@));
    r
}

/// Decodes the first key of `input`: control bytes, Enter, Backspace, escape
/// sequences resolved against the table by shrinking the set of candidates,
/// and plain characters. Returns the key and the number of bytes it took, or
/// `None` where `input` ends before the key is complete (a reader then waits
/// for more bytes).
pub fn read_editor_key(input: &[u8]) -> (r: Option<(EditorKey, usize)>)
    ensures
        match r {
            Some((key, n)) => decode_key(input@) == Some((key, n as nat)),
            None => decode_key(input@) is None,
        },
{
    if input.len() == 0 {
        return None;
    }
    let b = input[0];
    if b == 0x0d {
        Some((EditorKey::Enter, 1))
    } else if 0x01 <= b && b <= 0x1a {
        Some((EditorKey::ControlSequence((b + 0x60) as char), 1))
    } else if b == 0x1b {
        if input.len() < 2 {
            return None;
        }
        let table = escape_sequence_table();
        let mut k: usize = 2;
        loop
            invariant
                2 <= k <= input.len(),
                table_view(table@) == escape_table(),
                decode_key(input@) == decode_escape(input@, k as nat),
            decreases input.len() - k,
        {
            let buf = slice_prefix(input, k);
            let matches = matching_entries(&table, buf);
            if matches.len() == 0 {
                return Some((EditorKey::Escape, k));
            } else if matches.len() == 1 && vec_eq(&matches[0].0, buf) {
                assert(table_view(matches@)[0] == (matches@[0].0@, matches@[0].1));
                return Some((matches[0].1, k));
            }
            assert(table_view(matches@)[0] == (matches@[0].0@, matches@[0].1));
            if k == input.len() {
                return None;
            }
            k += 1;
        }
    } else if b == 0x7f {
        Some((EditorKey::Backspace, 1))
    } else {
        Some((EditorKey::NormalKey(b as char), 1))
    }
}

/// The first `k` bytes of `input`.
fn slice_prefix(input: &[u8], k: usize) -> (r: &[u8])
    requires
        k <= input@.len(),
    ensures
        r@ == input@.take(k as int),
{
    let r = input.split_at(k).0;
    r
}

/// `a` and `b` hold the same bytes.
fn vec_eq(a: &Vec<u8>, b: &[u8]) -> (r: bool)
    ensures
        r == (a@ == b@),
{
    if a.len() != b.len() {
        return false;
    }
    let r = starts_with(a, b);
    proof {
        if r {
            assert(a@ =~= b@);
        }
    }
    r
}

} // verus!
