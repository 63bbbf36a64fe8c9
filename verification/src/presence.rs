//! Reader presence: which serial ports look like a PN532 reader, the status
//! reported for them, and the decisions of the watcher that reports changes.

use vstd::prelude::*;
use crate::text::{has_prefix, starts_with, push_str};

verus! {

/// Whether a reader can be reached, how many candidate ports there are, and
/// the connection string of the first one ("" when there is none).
pub struct ReaderStatus {
    pub available: bool,
    pub count: usize,
    pub first_connstring: String,
}

impl View for ReaderStatus {
    type V = (bool, usize, Seq<char>);

    open spec fn view(&self) -> (bool, usize, Seq<char>) {
        (self.available, self.count, self.first_connstring@)
    }
}

/// A copy of a status.
pub fn copy_status(s: &ReaderStatus) -> (res: ReaderStatus)
    ensures
        res@ == s@,
{
    ReaderStatus {
        available: s.available,
        count: s.count,
        first_connstring: s.first_connstring.clone(),
    }
}

/// Whether two statuses are the same.
pub fn same_status(a: &ReaderStatus, b: &ReaderStatus) -> (res: bool)
    ensures
        res == (a@ == b@),
{
    a.available == b.available && a.count == b.count && a.first_connstring == b.first_connstring
}

/// The status of what the native bridge's probe found: `count` devices, the
/// first reachable through `first_connstring`; available when there is one.
pub fn status_from_probe(count: usize, first_connstring: String) -> (res: ReaderStatus)
    ensures
        res@ == (count > 0, count, first_connstring@),
{
    ReaderStatus { available: count > 0, count, first_connstring }
}

/// Whether a device name is that of a USB serial port a PN532 may sit
/// behind.
pub open spec fn is_reader_port(name: Seq<char>) -> bool {
    ||| has_prefix(name, "tty.usbserial"@)
    ||| has_prefix(name, "cu.usbserial"@)
    ||| has_prefix(name, "tty.wchusbserial"@)
    ||| has_prefix(name, "cu.wchusbserial"@)
    ||| has_prefix(name, "tty.usbmodem"@)
    ||| has_prefix(name, "cu.usbmodem"@)
}

/// Whether a device name is that of a candidate reader port.
pub fn is_reader_port_name(name: &str) -> (res: bool)
    ensures
        res == is_reader_port(name@),
{
    starts_with(name, "tty.usbserial") || starts_with(name, "cu.usbserial") || starts_with(
        name,
        "tty.wchusbserial",
    ) || starts_with(name, "cu.wchusbserial") || starts_with(name, "tty.usbmodem")
        || starts_with(name, "cu.usbmodem")
}

/// Lexicographic order of character sequences (the order of `str`).
pub open spec fn lex_le(a: Seq<char>, b: Seq<char>) -> bool
    decreases a.len(),
{
    if a.len() == 0 {
        true
    } else if b.len() == 0 {
        false
    } else if a[0] != b[0] {
        a[0] < b[0]
    } else {
        lex_le(a.drop_first(), b.drop_first())
    }
}

/// The number of candidate reader ports among device names.
pub open spec fn port_count(names: Seq<Seq<char>>) -> nat
    decreases names.len(),
{
    if names.len() == 0 {
        0
    } else {
        port_count(names.drop_last()) + if is_reader_port(names.last()) {
            1nat
        } else {
            0nat
        }
    }
}

/// The least candidate reader port among device names, if any.
pub open spec fn first_port(names: Seq<Seq<char>>) -> Option<Seq<char>>
    decreases names.len(),
{
    if names.len() == 0 {
        None
    } else {
        let prev = first_port(names.drop_last());
        if is_reader_port(names.last()) {
            match prev {
                Some(m) => if lex_le(m, names.last()) {
                    Some(m)
                } else {
                    Some(names.last())
                },
                None => Some(names.last()),
            }
        } else {
            prev
        }
    }
}

/// The status of the device names found in `/dev`: the candidate ports are
/// counted, and the least of them, as the path under `/dev`, gives the
/// connection string of the PN532 UART driver.
pub open spec fn presence_status(names: Seq<Seq<char>>) -> (bool, usize, Seq<char>) {
    (
        port_count(names) > 0,
        port_count(names) as usize,
        match first_port(names) {
            Some(m) => "pn532_uart:/dev/"@ + m,
            None => Seq::empty(),
        },
    )
}

proof fn lemma_lex_step(a: Seq<char>, b: Seq<char>, i: int)
    requires
        0 <= i < a.len(),
        i < b.len(),
        a[i] == b[i],
    ensures
        lex_le(a.skip(i), b.skip(i)) == lex_le(a.skip(i + 1), b.skip(i + 1)),
{
    assert(a.skip(i).drop_first() =~= a.skip(i + 1));
    assert(b.skip(i).drop_first() =~= b.skip(i + 1));
}

/// Whether `a` comes no later than `b` in lexicographic order.
pub fn lex_le_str(a: &str, b: &str) -> (res: bool)
    ensures
        res == lex_le(a@, b@),
{
    let n = a.unicode_len();
    let m = b.unicode_len();
    let mut i: usize = 0;
    assert(a@.skip(0) =~= a@);
    assert(b@.skip(0) =~= b@);
    while i < n && i < m && a.get_char(i) == b.get_char(i)
        invariant
            n == a@.len(),
            m == b@.len(),
            i <= n,
            i <= m,
            lex_le(a@, b@) == lex_le(a@.skip(i as int), b@.skip(i as int)),
        decreases n - i,
    {
        proof {
            lemma_lex_step(a@, b@, i as int);
        }
        i = i + 1;
    }
    if i == n {
        true
    } else if i == m {
        false
    } else {
        assert(a@.skip(i as int)[0] == a@[i as int]);
        assert(b@.skip(i as int)[0] == b@[i as int]);
        a.get_char(i) < b.get_char(i)
    }
}

/// The reader status for the device names found in `/dev`: how many look
/// like a USB serial port a PN532 may sit behind, and
/// "pn532_uart:/dev/<name>" for the first of them in sorted order.
pub fn reader_presence(names: &Vec<String>) -> (res: ReaderStatus)
    ensures
        res@ == presence_status(names.deep_view()),
{
    let ghost all = names.deep_view();
    let n = names.len();
    let mut count: usize = 0;
    let mut best: Option<usize> = None;
    let mut i: usize = 0;
    while i < n
        invariant
            n == names@.len(),
            all == names.deep_view(),
            i <= n,
            count as nat == port_count(all.subrange(0, i as int)),
            count <= i,
            match best {
                Some(k) => k < i && first_port(all.subrange(0, i as int)) == Some(all[k as int]),
                None => first_port(all.subrange(0, i as int)) is None,
            },
        decreases n - i,
    {
        let ghost prefix = all.subrange(0, (i + 1) as int);
        assert(prefix.drop_last() =~= all.subrange(0, i as int));
        assert(prefix.last() == names@[i as int]@);
        if is_reader_port_name(names[i].as_str()) {
            count = count + 1;
            match best {
                Some(k) => {
                    if !lex_le_str(names[k].as_str(), names[i].as_str()) {
                        best = Some(i);
                    }
                },
                None => {
                    best = Some(i);
                },
            }
        }
        i = i + 1;
    }
    assert(all.subrange(0, n as int) =~= all);
    let mut first = String::new();
    match best {
        Some(k) => {
            push_str(&mut first, "pn532_uart:/dev/");
            push_str(&mut first, names[k].as_str());
        },
        None => {},
    }
    ReaderStatus { available: count > 0, count, first_connstring: first }
}

proof fn lemma_lex_total(a: Seq<char>, b: Seq<char>)
    ensures
        lex_le(a, b) || lex_le(b, a),
    decreases a.len(),
{
    if a.len() > 0 && b.len() > 0 && a[0] == b[0] {
        lemma_lex_total(a.drop_first(), b.drop_first());
    }
}

proof fn lemma_lex_transitive(a: Seq<char>, b: Seq<char>, c: Seq<char>)
    requires
        lex_le(a, b),
        lex_le(b, c),
    ensures
        lex_le(a, c),
    decreases a.len(),
{
    if a.len() > 0 && b.len() > 0 && c.len() > 0 && a[0] == b[0] && b[0] == c[0] {
        lemma_lex_transitive(a.drop_first(), b.drop_first(), c.drop_first());
    }
}

/// The port named by a reader status is the first of the candidate ports in
/// sorted order: there is one exactly when some device name is a candidate,
/// it is one of them, and no candidate comes before it.
pub proof fn lemma_first_port_is_least(names: Seq<Seq<char>>)
    ensures
        first_port(names) is Some <==> port_count(names) > 0,
        first_port(names) matches Some(m) ==> {
            &&& is_reader_port(m)
            &&& names.contains(m)
            &&& forall|j: int|
                0 <= j < names.len() && is_reader_port(#[trigger] names[j]) ==> lex_le(m, names[j])
        },
    decreases names.len(),
{
    if names.len() > 0 {
        let prev = names.drop_last();
        let last = names.last();
        lemma_first_port_is_least(prev);
        assert forall|j: int| 0 <= j < names.len() - 1 implies #[trigger] names[j] == prev[j] by {}
        match first_port(names) {
            Some(m) => {
                if is_reader_port(last) {
                    match first_port(prev) {
                        Some(p) => {
                            if lex_le(p, last) {
                                assert(prev.contains(p));
                                let k = choose|k: int| 0 <= k < prev.len() && prev[k] == p;
                                assert(names[k] == p);
                            } else {
                                lemma_lex_total(p, last);
                                assert forall|j: int|
                                    0 <= j < names.len() && is_reader_port(#[trigger] names[j])
                                    implies lex_le(m, names[j]) by {
                                    if j < names.len() - 1 {
                                        assert(names[j] == prev[j]);
                                        lemma_lex_transitive(last, p, names[j]);
                                    } else {
                                        lemma_lex_total(last, last);
                                    }
                                }
                            }
                        },
                        None => {
                            assert forall|j: int|
                                0 <= j < names.len() && is_reader_port(#[trigger] names[j])
                                implies lex_le(m, names[j]) by {
                                if j < names.len() - 1 {
                                    assert(names[j] == prev[j]);
                                    assert(port_count(prev) > 0) by {
                                        lemma_port_count_positive(prev, j);
                                    }
                                } else {
                                    lemma_lex_total(last, last);
                                }
                            }
                        },
                    }
                    assert(names[names.len() - 1] == last);
                } else {
                    let k = choose|k: int| 0 <= k < prev.len() && prev[k] == m;
                    assert(names[k] == m);
                }
            },
            None => {},
        }
    }
}

proof fn lemma_port_count_positive(names: Seq<Seq<char>>, j: int)
    requires
        0 <= j < names.len(),
        is_reader_port(names[j]),
    ensures
        port_count(names) > 0,
    decreases names.len(),
{
    if j < names.len() - 1 {
        assert(names.drop_last()[j] == names[j]);
        lemma_port_count_positive(names.drop_last(), j);
    }
}

/// A name starting with any of the six USB serial prefixes (the `tty.` and
/// `cu.` nodes of usbserial, wchusbserial and usbmodem devices) is a reader
/// port, and no other name is.
pub proof fn lemma_reader_port_prefixes(name: Seq<char>)
    ensures
        has_prefix(name, "tty.usbserial"@) ==> is_reader_port(name),
        has_prefix(name, "cu.usbserial"@) ==> is_reader_port(name),
        has_prefix(name, "tty.wchusbserial"@) ==> is_reader_port(name),
        has_prefix(name, "cu.wchusbserial"@) ==> is_reader_port(name),
        has_prefix(name, "tty.usbmodem"@) ==> is_reader_port(name),
        has_prefix(name, "cu.usbmodem"@) ==> is_reader_port(name),
        is_reader_port(name) ==> has_prefix(name, "tty.usbserial"@) || has_prefix(
            name,
            "cu.usbserial"@,
        ) || has_prefix(name, "tty.wchusbserial"@) || has_prefix(name, "cu.wchusbserial"@)
            || has_prefix(name, "tty.usbmodem"@) || has_prefix(name, "cu.usbmodem"@),
{
}

/// The count of a status is the number of names that are reader ports: a
/// further name adds one to it exactly when it is a reader port, and the
/// order of the names does not matter for the count of a single name added
/// in front.
pub proof fn lemma_port_count_counts(names: Seq<Seq<char>>, name: Seq<char>)
    ensures
        port_count(names.push(name)) == port_count(names) + if is_reader_port(name) {
            1nat
        } else {
            0nat
        },
        port_count(seq![name] + names) == port_count(names) + if is_reader_port(name) {
            1nat
        } else {
            0nat
        },
        port_count(names) <= names.len(),
        port_count(Seq::<Seq<char>>::empty()) == 0,
    decreases names.len(),
{
    assert(names.push(name).drop_last() =~= names);
    if names.len() > 0 {
        lemma_port_count_counts(names.drop_last(), name);
        let whole = seq![name] + names;
        assert(whole.drop_last() =~= seq![name] + names.drop_last());
        assert(whole.last() == names.last());
        assert(port_count(whole) == port_count(whole.drop_last()) + if is_reader_port(whole.last()) {
            1nat
        } else {
            0nat
        });
    } else {
        assert(seq![name] + names =~= seq![name]);
        assert(seq![name].drop_last() =~= Seq::<Seq<char>>::empty());
        assert(seq![name].last() == name);
        assert(port_count(seq![name]) == port_count(seq![name].drop_last()) + if is_reader_port(name) {
            1nat
        } else {
            0nat
        });
    }
}

proof fn lemma_lex_antisymmetric(a: Seq<char>, b: Seq<char>)
    requires
        lex_le(a, b),
        lex_le(b, a),
    ensures
        a == b,
    decreases a.len(),
{
    if a.len() > 0 && b.len() > 0 {
        lemma_lex_antisymmetric(a.drop_first(), b.drop_first());
        assert(a =~= seq![a[0]] + a.drop_first());
        assert(b =~= seq![b[0]] + b.drop_first());
    } else {
        assert(a =~= b);
    }
}

proof fn lemma_lex_first_difference(a: Seq<char>, b: Seq<char>, i: int)
    requires
        0 <= i <= a.len(),
        i <= b.len(),
        a.subrange(0, i) =~= b.subrange(0, i),
    ensures
        i == a.len() ==> lex_le(a, b),
        i < a.len() && i < b.len() && a[i] < b[i] ==> lex_le(a, b) && !lex_le(b, a),
    decreases i,
{
    if i > 0 {
        assert(a[0] == a.subrange(0, i)[0]);
        assert(b[0] == b.subrange(0, i)[0]);
        assert(a.drop_first().subrange(0, i - 1) =~= b.drop_first().subrange(0, i - 1)) by {
            assert forall|j: int| 0 <= j < i - 1 implies a.drop_first()[j] == b.drop_first()[j] by {
                assert(a.subrange(0, i)[j + 1] == b.subrange(0, i)[j + 1]);
            }
        }
        lemma_lex_first_difference(a.drop_first(), b.drop_first(), i - 1);
    }
}

/// `lex_le` is the order of `str`: a total order in which a text comes no
/// later than every text it starts, and otherwise the first character where
/// two texts differ decides.
pub proof fn lemma_lex_is_text_order(a: Seq<char>, b: Seq<char>, c: Seq<char>, i: int)
    ensures
        lex_le(a, a),
        lex_le(a, b) || lex_le(b, a),
        lex_le(a, b) && lex_le(b, a) ==> a == b,
        lex_le(a, b) && lex_le(b, c) ==> lex_le(a, c),
        has_prefix(b, a) ==> lex_le(a, b),
        0 <= i < a.len() && i < b.len() && a.subrange(0, i) =~= b.subrange(0, i) && a[i] < b[i]
            ==> lex_le(a, b) && !lex_le(b, a),
{
    lemma_lex_total(a, a);
    lemma_lex_total(a, b);
    if lex_le(a, b) && lex_le(b, a) {
        lemma_lex_antisymmetric(a, b);
    }
    if lex_le(a, b) && lex_le(b, c) {
        lemma_lex_transitive(a, b, c);
    }
    if has_prefix(b, a) {
        assert(a.subrange(0, a.len() as int) =~= a);
        lemma_lex_first_difference(a, b, a.len() as int);
    }
    if 0 <= i < a.len() && i < b.len() && a.subrange(0, i) =~= b.subrange(0, i) && a[i] < b[i] {
        lemma_lex_first_difference(a, b, i);
    }
}

} // verus!
