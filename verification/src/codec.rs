//! The durable snapshot format.
//!
//! The whole collection is rendered as one piece of text: a JSON array of
//! inventory records, each written as an array of its fields with items and
//! units nested inline. Identifiers are decimal numbers, names are quoted
//! strings with `"` and `\` escaped by a backslash, and a missing EAN code
//! is written `null`. The decoder is strict: it accepts exactly what the
//! encoder produces, and anything else — a foreign layout, trailing text, a
//! number out of range — is rejected, which the store treats as an absent
//! snapshot.

use vstd::prelude::*;

use crate::domain::{Inventory, InventoryView, Item, ItemView, Unit, UnitView};
use crate::ids::Id;

verus! {

/// The digit character for a value between 0 and 9.
pub open spec fn dec_digit(d: int) -> char {
    if d == 0 {
        '0'
    } else if d == 1 {
        '1'
    } else if d == 2 {
        '2'
    } else if d == 3 {
        '3'
    } else if d == 4 {
        '4'
    } else if d == 5 {
        '5'
    } else if d == 6 {
        '6'
    } else if d == 7 {
        '7'
    } else if d == 8 {
        '8'
    } else {
        '9'
    }
}

/// The value of a digit character, or -1 for any other character.
pub open spec fn digit_val(c: char) -> int {
    if c == '0' {
        0
    } else if c == '1' {
        1
    } else if c == '2' {
        2
    } else if c == '3' {
        3
    } else if c == '4' {
        4
    } else if c == '5' {
        5
    } else if c == '6' {
        6
    } else if c == '7' {
        7
    } else if c == '8' {
        8
    } else if c == '9' {
        9
    } else {
        -1
    }
}

/// The decimal rendering of a number, most significant digit first.
pub open spec fn enc_u128(n: nat) -> Seq<char>
    decreases n,
{
    if n < 10 {
        seq![dec_digit(n as int)]
    } else {
        enc_u128(n / 10).push(dec_digit((n % 10) as int))
    }
}

/// Folds a run of digit characters into a value, left to right, on top of
/// `acc`.
pub open spec fn val_left(acc: nat, ds: Seq<char>) -> nat
    decreases ds.len(),
{
    if ds.len() == 0 {
        acc
    } else {
        val_left(acc * 10 + digit_val(ds[0]) as nat, ds.drop_first())
    }
}

/// Consumes the longest run of digit characters, folding it on top of
/// `acc`, and keeps the rest.
pub open spec fn parse_digits(s: Seq<char>, acc: nat) -> (nat, Seq<char>)
    decreases s.len(),
{
    if s.len() > 0 && digit_val(s[0]) >= 0 {
        parse_digits(s.drop_first(), acc * 10 + digit_val(s[0]) as nat)
    } else {
        (acc, s)
    }
}

/// Reads a number: at least one digit, and a value that fits the
/// identifier width.
pub open spec fn parse_u128(s: Seq<char>) -> Option<(u128, Seq<char>)> {
    if s.len() > 0 && digit_val(s[0]) >= 0 {
        let folded = parse_digits(s, 0);
        if folded.0 <= u128::MAX as nat {
            Some((folded.0 as u128, folded.1))
        } else {
            None
        }
    } else {
        None
    }
}

/// Ten to the power of the digit count of `n`.
pub open spec fn shift10(n: nat) -> nat
    decreases n,
{
    if n < 10 {
        10
    } else {
        10 * shift10(n / 10)
    }
}

/// Every character of a decimal rendering is a digit, and there is at
/// least one.
pub proof fn lemma_enc_u128_digits(n: nat)
    ensures
        enc_u128(n).len() >= 1,
        forall|i: int| 0 <= i < enc_u128(n).len() ==> digit_val(#[trigger] enc_u128(n)[i]) >= 0,
    decreases n,
{
    if n < 10 {
        assert(digit_val(dec_digit(n as int)) == n);
    } else {
        lemma_enc_u128_digits(n / 10);
        let e = enc_u128(n);
        assert forall|i: int| 0 <= i < e.len() implies digit_val(#[trigger] e[i]) >= 0 by {
            if i < e.len() - 1 {
                assert(e[i] == enc_u128(n / 10)[i]);
            } else {
                assert(e[i] == dec_digit((n % 10) as int));
                assert(digit_val(dec_digit((n % 10) as int)) == n % 10);
            }
        }
    }
}

/// Folding digits distributes over concatenation.
pub proof fn lemma_val_left_add(acc: nat, xs: Seq<char>, ys: Seq<char>)
    ensures
        val_left(acc, xs + ys) == val_left(val_left(acc, xs), ys),
    decreases xs.len(),
{
    if xs.len() == 0 {
        assert(xs + ys =~= ys);
    } else {
        assert((xs + ys).drop_first() =~= xs.drop_first() + ys);
        lemma_val_left_add(acc * 10 + digit_val(xs[0]) as nat, xs.drop_first(), ys);
    }
}

/// Folding the decimal rendering of `n` on top of `acc` shifts `acc` past
/// the digits and adds `n`.
pub proof fn lemma_val_left_enc(n: nat, acc: nat)
    ensures
        val_left(acc, enc_u128(n)) == acc * shift10(n) + n,
    decreases n,
{
    if n < 10 {
        let ds = enc_u128(n);
        assert(ds == seq![dec_digit(n as int)]);
        assert(digit_val(ds[0]) == n);
        assert(ds.drop_first() =~= Seq::<char>::empty());
        assert(val_left(acc * 10 + digit_val(ds[0]) as nat, Seq::<char>::empty()) == acc * 10
            + digit_val(ds[0]) as nat);
        assert(val_left(acc, ds) == acc * 10 + n);
    } else {
        let d = dec_digit((n % 10) as int);
        assert(enc_u128(n) =~= enc_u128(n / 10) + seq![d]);
        lemma_val_left_add(acc, enc_u128(n / 10), seq![d]);
        lemma_val_left_enc(n / 10, acc);
        let mid = val_left(acc, enc_u128(n / 10));
        assert(mid == acc * shift10(n / 10) + n / 10);
        assert(digit_val(d) == n % 10);
        assert(seq![d].drop_first() =~= Seq::<char>::empty());
        assert(val_left(mid * 10 + digit_val(d) as nat, Seq::<char>::empty()) == mid * 10
            + digit_val(d) as nat);
        assert(val_left(mid, seq![d]) == mid * 10 + n % 10);
        assert((acc * shift10(n / 10) + n / 10) * 10 == acc * (10 * shift10(n / 10)) + (n / 10)
            * 10) by (nonlinear_arith);
        assert((n / 10) * 10 + n % 10 == n);
    }
}

/// Consuming an all-digit run followed by a non-digit boundary folds
/// exactly that run.
pub proof fn lemma_parse_digits_split(ds: Seq<char>, rest: Seq<char>, acc: nat)
    requires
        forall|i: int| 0 <= i < ds.len() ==> digit_val(#[trigger] ds[i]) >= 0,
        rest.len() == 0 || digit_val(rest[0]) < 0,
    ensures
        parse_digits(ds + rest, acc) == (val_left(acc, ds), rest),
    decreases ds.len(),
{
    if ds.len() == 0 {
        assert(ds + rest =~= rest);
    } else {
        assert((ds + rest)[0] == ds[0]);
        assert((ds + rest).drop_first() =~= ds.drop_first() + rest);
        lemma_parse_digits_split(ds.drop_first(), rest, acc * 10 + digit_val(ds[0]) as nat);
    }
}

/// Reading the decimal rendering of a number gives the number back and
/// leaves the rest untouched.
pub proof fn lemma_parse_u128_enc(n: u128, rest: Seq<char>)
    requires
        rest.len() == 0 || digit_val(rest[0]) < 0,
    ensures
        parse_u128(enc_u128(n as nat) + rest) == Some((n, rest)),
{
    let ds = enc_u128(n as nat);
    lemma_enc_u128_digits(n as nat);
    assert((ds + rest)[0] == ds[0]);
    lemma_parse_digits_split(ds, rest, 0);
    lemma_val_left_enc(n as nat, 0);
    assert(val_left(0, ds) == 0 * shift10(n as nat) + n);
}

/// The escape of one character inside a quoted string.
pub open spec fn esc_char(c: char) -> Seq<char> {
    if c == '"' || c == '\\' {
        seq!['\\', c]
    } else {
        seq![c]
    }
}

/// The body of a quoted string: each character escaped as needed.
pub open spec fn enc_escaped(s: Seq<char>) -> Seq<char>
    decreases s.len(),
{
    if s.len() == 0 {
        Seq::<char>::empty()
    } else {
        esc_char(s[0]) + enc_escaped(s.drop_first())
    }
}

/// A quoted string.
pub open spec fn enc_string(s: Seq<char>) -> Seq<char> {
    seq!['"'] + enc_escaped(s) + seq!['"']
}

/// A quoted string, or `null` for an absent value.
pub open spec fn enc_opt_string(o: Option<Seq<char>>) -> Seq<char> {
    match o {
        Some(s) => enc_string(s),
        None => seq!['n', 'u', 'l', 'l'],
    }
}

/// An identifier, as a decimal number.
pub open spec fn enc_id(id: Id) -> Seq<char> {
    enc_u128(id.value as nat)
}

/// Consumes one expected character.
pub open spec fn expect(s: Seq<char>, c: char) -> Option<Seq<char>> {
    if s.len() > 0 && s[0] == c {
        Some(s.drop_first())
    } else {
        None
    }
}

/// Reads a quoted string's body up to and including the closing quote.
pub open spec fn parse_str_body(s: Seq<char>) -> Option<(Seq<char>, Seq<char>)>
    decreases s.len(),
{
    if s.len() == 0 {
        None
    } else if s[0] == '"' {
        Some((Seq::<char>::empty(), s.drop_first()))
    } else if s[0] == '\\' {
        if s.len() < 2 {
            None
        } else {
            match parse_str_body(s.skip(2)) {
                None => None,
                Some(p) => Some((seq![s[1]] + p.0, p.1)),
            }
        }
    } else {
        match parse_str_body(s.drop_first()) {
            None => None,
            Some(p) => Some((seq![s[0]] + p.0, p.1)),
        }
    }
}

/// Reads a quoted string.
pub open spec fn parse_string(s: Seq<char>) -> Option<(Seq<char>, Seq<char>)> {
    match expect(s, '"') {
        None => None,
        Some(r) => parse_str_body(r),
    }
}

/// Reads an identifier.
pub open spec fn parse_id(s: Seq<char>) -> Option<(Id, Seq<char>)> {
    match parse_u128(s) {
        None => None,
        Some(p) => Some((Id { value: p.0 }, p.1)),
    }
}

/// Reads a quoted string or `null`.
pub open spec fn parse_opt_string(s: Seq<char>) -> Option<(Option<Seq<char>>, Seq<char>)> {
    if s.len() > 0 && s[0] == '"' {
        match parse_string(s) {
            None => None,
            Some(p) => Some((Some(p.0), p.1)),
        }
    } else if s.len() >= 4 && s[0] == 'n' && s[1] == 'u' && s[2] == 'l' && s[3] == 'l' {
        Some((None, s.skip(4)))
    } else {
        None
    }
}

/// Reading an escaped body followed by a closing quote gives the original
/// text back.
pub proof fn lemma_parse_str_body_enc(x: Seq<char>, rest: Seq<char>)
    ensures
        parse_str_body(enc_escaped(x) + seq!['"'] + rest) == Some((x, rest)),
    decreases x.len(),
{
    let s = enc_escaped(x) + seq!['"'] + rest;
    if x.len() == 0 {
        assert(s =~= seq!['"'] + rest);
        assert(s[0] == '"');
        assert(s.drop_first() =~= rest);
    } else {
        let c = x[0];
        let tail = enc_escaped(x.drop_first()) + seq!['"'] + rest;
        lemma_parse_str_body_enc(x.drop_first(), rest);
        if c == '"' || c == '\\' {
            assert(s =~= seq!['\\', c] + tail);
            assert(s[0] == '\\' && s[1] == c && s.len() >= 2);
            assert(s.skip(2) =~= tail);
            assert(seq![c] + x.drop_first() =~= x);
        } else {
            assert(s =~= seq![c] + tail);
            assert(s[0] == c);
            assert(s.drop_first() =~= tail);
            assert(seq![c] + x.drop_first() =~= x);
        }
    }
}

/// Reading a quoted string gives the original text back.
pub proof fn lemma_parse_string_enc(x: Seq<char>, rest: Seq<char>)
    ensures
        parse_string(enc_string(x) + rest) == Some((x, rest)),
{
    let s = enc_string(x) + rest;
    let tail = enc_escaped(x) + seq!['"'] + rest;
    assert(s =~= seq!['"'] + tail);
    assert(s[0] == '"');
    assert(s.drop_first() =~= tail);
    lemma_parse_str_body_enc(x, rest);
}

/// Reading an encoded identifier gives the identifier back.
pub proof fn lemma_parse_id_enc(id: Id, rest: Seq<char>)
    requires
        rest.len() == 0 || digit_val(rest[0]) < 0,
    ensures
        parse_id(enc_id(id) + rest) == Some((id, rest)),
{
    lemma_parse_u128_enc(id.value, rest);
}

/// Reading an encoded optional string gives the value back.
pub proof fn lemma_parse_opt_string_enc(o: Option<Seq<char>>, rest: Seq<char>)
    ensures
        parse_opt_string(enc_opt_string(o) + rest) == Some((o, rest)),
{
    let s = enc_opt_string(o) + rest;
    match o {
        Some(x) => {
            assert(s[0] == '"') by {
                assert(enc_string(x)[0] == '"');
            }
            lemma_parse_string_enc(x, rest);
        },
        None => {
            assert(s =~= seq!['n', 'u', 'l', 'l'] + rest);
            assert(s[0] == 'n' && s[1] == 'u' && s[2] == 'l' && s[3] == 'l');
            assert(s.skip(4) =~= rest);
        },
    }
}

/// One unit: its identifiers and name as an array.
pub open spec fn enc_unit(u: UnitView) -> Seq<char> {
    seq!['['] + enc_id(u.uuid) + seq![','] + enc_id(u.item_uuid) + seq![','] + enc_id(
        u.inventory_uuid,
    ) + seq![','] + enc_string(u.name) + seq![']']
}

/// The tail of a unit array: `,` and a unit for each further element, then
/// the closing bracket.
pub open spec fn enc_unit_rest(units: Seq<UnitView>) -> Seq<char>
    decreases units.len(),
{
    if units.len() == 0 {
        seq![']']
    } else {
        seq![','] + enc_unit(units[0]) + enc_unit_rest(units.drop_first())
    }
}

/// An array of units.
pub open spec fn enc_unit_list(units: Seq<UnitView>) -> Seq<char> {
    if units.len() == 0 {
        seq!['[', ']']
    } else {
        seq!['['] + enc_unit(units[0]) + enc_unit_rest(units.drop_first())
    }
}

/// The tail of an identifier array.
pub open spec fn enc_id_rest(ids: Seq<Id>) -> Seq<char>
    decreases ids.len(),
{
    if ids.len() == 0 {
        seq![']']
    } else {
        seq![','] + enc_id(ids[0]) + enc_id_rest(ids.drop_first())
    }
}

/// An array of identifiers.
pub open spec fn enc_id_list(ids: Seq<Id>) -> Seq<char> {
    if ids.len() == 0 {
        seq!['[', ']']
    } else {
        seq!['['] + enc_id(ids[0]) + enc_id_rest(ids.drop_first())
    }
}

/// One item: identifiers, name, EAN and nested units as an array.
pub open spec fn enc_item(it: ItemView) -> Seq<char> {
    seq!['['] + enc_id(it.uuid) + seq![','] + enc_id(it.inventory_uuid) + seq![','] + enc_string(
        it.name,
    ) + seq![','] + enc_opt_string(it.ean) + seq![','] + enc_unit_list(it.units) + seq![']']
}

/// The tail of an item array.
pub open spec fn enc_item_rest(items: Seq<ItemView>) -> Seq<char>
    decreases items.len(),
{
    if items.len() == 0 {
        seq![']']
    } else {
        seq![','] + enc_item(items[0]) + enc_item_rest(items.drop_first())
    }
}

/// An array of items.
pub open spec fn enc_item_list(items: Seq<ItemView>) -> Seq<char> {
    if items.len() == 0 {
        seq!['[', ']']
    } else {
        seq!['['] + enc_item(items[0]) + enc_item_rest(items.drop_first())
    }
}

/// One inventory: identifier, name, owner, the three access tiers and the
/// nested items as an array.
pub open spec fn enc_inventory(inv: InventoryView) -> Seq<char> {
    seq!['['] + enc_id(inv.uuid) + seq![','] + enc_string(inv.name) + seq![','] + enc_id(
        inv.owner,
    ) + seq![','] + enc_id_list(inv.admins) + seq![','] + enc_id_list(inv.writables) + seq![',']
        + enc_id_list(inv.readables) + seq![','] + enc_item_list(inv.items) + seq![']']
}

/// The tail of the top-level inventory array.
pub open spec fn enc_inventory_rest(invs: Seq<InventoryView>) -> Seq<char>
    decreases invs.len(),
{
    if invs.len() == 0 {
        seq![']']
    } else {
        seq![','] + enc_inventory(invs[0]) + enc_inventory_rest(invs.drop_first())
    }
}

/// The whole collection as one array of inventories.
pub open spec fn snapshot_text(invs: Seq<InventoryView>) -> Seq<char> {
    if invs.len() == 0 {
        seq!['[', ']']
    } else {
        seq!['['] + enc_inventory(invs[0]) + enc_inventory_rest(invs.drop_first())
    }
}

/// Reads one unit.
#[verifier::opaque]
pub open spec fn parse_unit(s: Seq<char>) -> Option<(UnitView, Seq<char>)> {
    match expect(s, '[') {
        None => None,
        Some(r1) => match parse_id(r1) {
            None => None,
            Some(p1) => match expect(p1.1, ',') {
                None => None,
                Some(r2) => match parse_id(r2) {
                    None => None,
                    Some(p2) => match expect(p2.1, ',') {
                        None => None,
                        Some(r3) => match parse_id(r3) {
                            None => None,
                            Some(p3) => match expect(p3.1, ',') {
                                None => None,
                                Some(r4) => match parse_string(r4) {
                                    None => None,
                                    Some(p4) => match expect(p4.1, ']') {
                                        None => None,
                                        Some(r5) => Some(
                                            (
                                                UnitView {
                                                    uuid: p1.0,
                                                    item_uuid: p2.0,
                                                    inventory_uuid: p3.0,
                                                    name: p4.0,
                                                },
                                                r5,
                                            ),
                                        ),
                                    },
                                },
                            },
                        },
                    },
                },
            },
        },
    }
}

/// Reads the tail of a unit array.
pub open spec fn parse_unit_rest(s: Seq<char>) -> Option<(Seq<UnitView>, Seq<char>)>
    decreases s.len(),
{
    if s.len() == 0 {
        None
    } else if s[0] == ']' {
        Some((Seq::<UnitView>::empty(), s.drop_first()))
    } else if s[0] == ',' {
        match parse_unit(s.drop_first()) {
            None => None,
            Some(p) => if p.1.len() < s.len() {
                match parse_unit_rest(p.1) {
                    None => None,
                    Some(q) => Some((seq![p.0] + q.0, q.1)),
                }
            } else {
                None
            },
        }
    } else {
        None
    }
}

/// Reads an array of units.
pub open spec fn parse_unit_list(s: Seq<char>) -> Option<(Seq<UnitView>, Seq<char>)> {
    match expect(s, '[') {
        None => None,
        Some(r) => if r.len() > 0 && r[0] == ']' {
            Some((Seq::<UnitView>::empty(), r.drop_first()))
        } else {
            match parse_unit(r) {
                None => None,
                Some(p) => if p.1.len() < r.len() {
                    match parse_unit_rest(p.1) {
                        None => None,
                        Some(q) => Some((seq![p.0] + q.0, q.1)),
                    }
                } else {
                    None
                },
            }
        },
    }
}

/// Reads the tail of an identifier array.
pub open spec fn parse_id_rest(s: Seq<char>) -> Option<(Seq<Id>, Seq<char>)>
    decreases s.len(),
{
    if s.len() == 0 {
        None
    } else if s[0] == ']' {
        Some((Seq::<Id>::empty(), s.drop_first()))
    } else if s[0] == ',' {
        match parse_id(s.drop_first()) {
            None => None,
            Some(p) => if p.1.len() < s.len() {
                match parse_id_rest(p.1) {
                    None => None,
                    Some(q) => Some((seq![p.0] + q.0, q.1)),
                }
            } else {
                None
            },
        }
    } else {
        None
    }
}

/// Reads an array of identifiers.
pub open spec fn parse_id_list(s: Seq<char>) -> Option<(Seq<Id>, Seq<char>)> {
    match expect(s, '[') {
        None => None,
        Some(r) => if r.len() > 0 && r[0] == ']' {
            Some((Seq::<Id>::empty(), r.drop_first()))
        } else {
            match parse_id(r) {
                None => None,
                Some(p) => if p.1.len() < r.len() {
                    match parse_id_rest(p.1) {
                        None => None,
                        Some(q) => Some((seq![p.0] + q.0, q.1)),
                    }
                } else {
                    None
                },
            }
        },
    }
}

/// Reads one item.
#[verifier::opaque]
pub open spec fn parse_item(s: Seq<char>) -> Option<(ItemView, Seq<char>)> {
    match expect(s, '[') {
        None => None,
        Some(r1) => match parse_id(r1) {
            None => None,
            Some(p1) => match expect(p1.1, ',') {
                None => None,
                Some(r2) => match parse_id(r2) {
                    None => None,
                    Some(p2) => match expect(p2.1, ',') {
                        None => None,
                        Some(r3) => match parse_string(r3) {
                            None => None,
                            Some(p3) => match expect(p3.1, ',') {
                                None => None,
                                Some(r4) => match parse_opt_string(r4) {
                                    None => None,
                                    Some(p4) => match expect(p4.1, ',') {
                                        None => None,
                                        Some(r5) => match parse_unit_list(r5) {
                                            None => None,
                                            Some(p5) => match expect(p5.1, ']') {
                                                None => None,
                                                Some(r6) => Some(
                                                    (
                                                        ItemView {
                                                            uuid: p1.0,
                                                            inventory_uuid: p2.0,
                                                            name: p3.0,
                                                            ean: p4.0,
                                                            units: p5.0,
                                                        },
                                                        r6,
                                                    ),
                                                ),
                                            },
                                        },
                                    },
                                },
                            },
                        },
                    },
                },
            },
        },
    }
}

/// Reads the tail of an item array.
pub open spec fn parse_item_rest(s: Seq<char>) -> Option<(Seq<ItemView>, Seq<char>)>
    decreases s.len(),
{
    if s.len() == 0 {
        None
    } else if s[0] == ']' {
        Some((Seq::<ItemView>::empty(), s.drop_first()))
    } else if s[0] == ',' {
        match parse_item(s.drop_first()) {
            None => None,
            Some(p) => if p.1.len() < s.len() {
                match parse_item_rest(p.1) {
                    None => None,
                    Some(q) => Some((seq![p.0] + q.0, q.1)),
                }
            } else {
                None
            },
        }
    } else {
        None
    }
}

/// Reads an array of items.
pub open spec fn parse_item_list(s: Seq<char>) -> Option<(Seq<ItemView>, Seq<char>)> {
    match expect(s, '[') {
        None => None,
        Some(r) => if r.len() > 0 && r[0] == ']' {
            Some((Seq::<ItemView>::empty(), r.drop_first()))
        } else {
            match parse_item(r) {
                None => None,
                Some(p) => if p.1.len() < r.len() {
                    match parse_item_rest(p.1) {
                        None => None,
                        Some(q) => Some((seq![p.0] + q.0, q.1)),
                    }
                } else {
                    None
                },
            }
        },
    }
}

/// Reads one inventory.
#[verifier::opaque]
pub open spec fn parse_inventory(s: Seq<char>) -> Option<(InventoryView, Seq<char>)> {
    match expect(s, '[') {
        None => None,
        Some(r1) => match parse_id(r1) {
            None => None,
            Some(p1) => match expect(p1.1, ',') {
                None => None,
                Some(r2) => match parse_string(r2) {
                    None => None,
                    Some(p2) => match expect(p2.1, ',') {
                        None => None,
                        Some(r3) => match parse_id(r3) {
                            None => None,
                            Some(p3) => match expect(p3.1, ',') {
                                None => None,
                                Some(r4) => match parse_id_list(r4) {
                                    None => None,
                                    Some(p4) => match expect(p4.1, ',') {
                                        None => None,
                                        Some(r5) => match parse_id_list(r5) {
                                            None => None,
                                            Some(p5) => match expect(p5.1, ',') {
                                                None => None,
                                                Some(r6) => match parse_id_list(r6) {
                                                    None => None,
                                                    Some(p6) => match expect(p6.1, ',') {
                                                        None => None,
                                                        Some(r7) => match parse_item_list(r7) {
                                                            None => None,
                                                            Some(p7) => match expect(p7.1, ']') {
                                                                None => None,
                                                                Some(r8) => Some(
                                                                    (
                                                                        InventoryView {
                                                                            uuid: p1.0,
                                                                            name: p2.0,
                                                                            owner: p3.0,
                                                                            admins: p4.0,
                                                                            writables: p5.0,
                                                                            readables: p6.0,
                                                                            items: p7.0,
                                                                        },
                                                                        r8,
                                                                    ),
                                                                ),
                                                            },
                                                        },
                                                    },
                                                },
                                            },
                                        },
                                    },
                                },
                            },
                        },
                    },
                },
            },
        },
    }
}

/// Reads the tail of the top-level inventory array.
pub open spec fn parse_inventory_rest(s: Seq<char>) -> Option<(Seq<InventoryView>, Seq<char>)>
    decreases s.len(),
{
    if s.len() == 0 {
        None
    } else if s[0] == ']' {
        Some((Seq::<InventoryView>::empty(), s.drop_first()))
    } else if s[0] == ',' {
        match parse_inventory(s.drop_first()) {
            None => None,
            Some(p) => if p.1.len() < s.len() {
                match parse_inventory_rest(p.1) {
                    None => None,
                    Some(q) => Some((seq![p.0] + q.0, q.1)),
                }
            } else {
                None
            },
        }
    } else {
        None
    }
}

/// Reads the top-level inventory array.
pub open spec fn parse_inventory_list(s: Seq<char>) -> Option<(Seq<InventoryView>, Seq<char>)> {
    match expect(s, '[') {
        None => None,
        Some(r) => if r.len() > 0 && r[0] == ']' {
            Some((Seq::<InventoryView>::empty(), r.drop_first()))
        } else {
            match parse_inventory(r) {
                None => None,
                Some(p) => if p.1.len() < r.len() {
                    match parse_inventory_rest(p.1) {
                        None => None,
                        Some(q) => Some((seq![p.0] + q.0, q.1)),
                    }
                } else {
                    None
                },
            }
        },
    }
}

/// Reads a whole snapshot: the inventory array with nothing after it.
pub open spec fn parse_snapshot(s: Seq<char>) -> Option<Seq<InventoryView>> {
    match parse_inventory_list(s) {
        None => None,
        Some(p) => if p.1.len() == 0 {
            Some(p.0)
        } else {
            None
        },
    }
}


/// Concatenation of character sequences is associative.
pub proof fn lemma_assoc(a: Seq<char>, b: Seq<char>, c: Seq<char>)
    ensures
        (a + b) + c == a + (b + c),
{
    assert((a + b) + c =~= a + (b + c));
}


/// First character and tail of a sequence with a known head.
pub proof fn lemma_cons_first(c: char, t: Seq<char>)
    ensures
        (seq![c] + t).len() == t.len() + 1,
        (seq![c] + t)[0] == c,
        (seq![c] + t).drop_first() == t,
{
    assert((seq![c] + t).drop_first() =~= t);
}

/// Reading an encoded unit gives the unit back.
pub proof fn lemma_parse_unit_enc(u: UnitView, rest: Seq<char>)
    ensures
        parse_unit(enc_unit(u) + rest) == Some((u, rest)),
{
    reveal(parse_unit);
    let s = enc_unit(u) + rest;
    let t5 = seq![']'] + rest;
    let t4 = enc_string(u.name) + t5;
    let c3 = seq![','] + t4;
    let t3 = enc_id(u.inventory_uuid) + c3;
    let c2 = seq![','] + t3;
    let t2 = enc_id(u.item_uuid) + c2;
    let c1 = seq![','] + t2;
    let t1 = enc_id(u.uuid) + c1;
    assert(s =~= seq!['['] + t1);
    assert(s[0] == '[');
    assert(s.drop_first() =~= t1);
    lemma_parse_id_enc(u.uuid, c1);
    assert(c1[0] == ',');
    assert(c1.drop_first() =~= t2);
    lemma_parse_id_enc(u.item_uuid, c2);
    assert(c2[0] == ',');
    assert(c2.drop_first() =~= t3);
    lemma_parse_id_enc(u.inventory_uuid, c3);
    assert(c3[0] == ',');
    assert(c3.drop_first() =~= t4);
    lemma_parse_string_enc(u.name, t5);
    assert(t5[0] == ']');
    assert(t5.drop_first() =~= rest);
}

/// Reading the encoded tail of a unit array gives the units back.
pub proof fn lemma_parse_unit_rest_enc(units: Seq<UnitView>, rest: Seq<char>)
    ensures
        parse_unit_rest(enc_unit_rest(units) + rest) == Some((units, rest)),
    decreases units.len(),
{
    let s = enc_unit_rest(units) + rest;
    if units.len() == 0 {
        assert(s =~= seq![']'] + rest);
        assert(s[0] == ']');
        assert(s.drop_first() =~= rest);
    } else {
        let tail = enc_unit_rest(units.drop_first()) + rest;
        assert(s =~= seq![','] + (enc_unit(units[0]) + tail));
        assert(s[0] == ',');
        assert(s.drop_first() =~= enc_unit(units[0]) + tail);
        lemma_parse_unit_enc(units[0], tail);
        assert(tail.len() < s.len()) by {
            assert(enc_unit(units[0]).len() >= 1) by {
                assert(enc_unit(units[0])[0] == '[');
            }
        }
        lemma_parse_unit_rest_enc(units.drop_first(), rest);
        assert(seq![units[0]] + units.drop_first() =~= units);
    }
}

/// Reading an encoded unit array gives the units back.
pub proof fn lemma_parse_unit_list_enc(units: Seq<UnitView>, rest: Seq<char>)
    ensures
        parse_unit_list(enc_unit_list(units) + rest) == Some((units, rest)),
{
    let s = enc_unit_list(units) + rest;
    if units.len() == 0 {
        assert(s =~= seq!['['] + (seq![']'] + rest));
        assert(s[0] == '[');
        assert(s.drop_first() =~= seq![']'] + rest);
        assert((seq![']'] + rest)[0] == ']');
        assert((seq![']'] + rest).drop_first() =~= rest);
    } else {
        let tail = enc_unit_rest(units.drop_first()) + rest;
        let r = enc_unit(units[0]) + tail;
        assert(s =~= seq!['['] + r);
        assert(s[0] == '[');
        assert(s.drop_first() =~= r);
        assert(r[0] == '[') by {
            assert(enc_unit(units[0])[0] == '[');
        }
        lemma_parse_unit_enc(units[0], tail);
        assert(tail.len() < r.len()) by {
            assert(enc_unit(units[0])[0] == '[');
        }
        lemma_parse_unit_rest_enc(units.drop_first(), rest);
        assert(seq![units[0]] + units.drop_first() =~= units);
    }
}

/// Reading the encoded tail of an identifier array gives the identifiers
/// back.
pub proof fn lemma_parse_id_rest_enc(ids: Seq<Id>, rest: Seq<char>)
    ensures
        parse_id_rest(enc_id_rest(ids) + rest) == Some((ids, rest)),
    decreases ids.len(),
{
    let s = enc_id_rest(ids) + rest;
    if ids.len() == 0 {
        assert(s =~= seq![']'] + rest);
        assert(s[0] == ']');
        assert(s.drop_first() =~= rest);
    } else {
        let tail = enc_id_rest(ids.drop_first()) + rest;
        assert(s =~= seq![','] + (enc_id(ids[0]) + tail));
        assert(s[0] == ',');
        assert(s.drop_first() =~= enc_id(ids[0]) + tail);
        assert(tail.len() > 0 && digit_val(tail[0]) < 0) by {
            if ids.drop_first().len() == 0 {
                assert(enc_id_rest(ids.drop_first()) == seq![']']);
                assert(tail[0] == ']');
            } else {
                assert(enc_id_rest(ids.drop_first())[0] == ',');
                assert(tail[0] == ',');
            }
        }
        lemma_parse_id_enc(ids[0], tail);
        assert(tail.len() < s.len()) by {
            lemma_enc_u128_digits(ids[0].value as nat);
        }
        lemma_parse_id_rest_enc(ids.drop_first(), rest);
        assert(seq![ids[0]] + ids.drop_first() =~= ids);
    }
}

/// Reading an encoded identifier array gives the identifiers back.
pub proof fn lemma_parse_id_list_enc(ids: Seq<Id>, rest: Seq<char>)
    ensures
        parse_id_list(enc_id_list(ids) + rest) == Some((ids, rest)),
{
    let s = enc_id_list(ids) + rest;
    if ids.len() == 0 {
        assert(s =~= seq!['['] + (seq![']'] + rest));
        assert(s[0] == '[');
        assert(s.drop_first() =~= seq![']'] + rest);
        assert((seq![']'] + rest)[0] == ']');
        assert((seq![']'] + rest).drop_first() =~= rest);
    } else {
        let tail = enc_id_rest(ids.drop_first()) + rest;
        let r = enc_id(ids[0]) + tail;
        assert(s =~= seq!['['] + r);
        assert(s[0] == '[');
        assert(s.drop_first() =~= r);
        lemma_enc_u128_digits(ids[0].value as nat);
        assert(digit_val(r[0]) >= 0) by {
            assert(r[0] == enc_id(ids[0])[0]);
        }
        assert(r[0] != ']');
        assert(tail.len() > 0 && digit_val(tail[0]) < 0) by {
            if ids.drop_first().len() == 0 {
                assert(enc_id_rest(ids.drop_first()) == seq![']']);
                assert(tail[0] == ']');
            } else {
                assert(enc_id_rest(ids.drop_first())[0] == ',');
                assert(tail[0] == ',');
            }
        }
        lemma_parse_id_enc(ids[0], tail);
        assert(tail.len() < r.len());
        lemma_parse_id_rest_enc(ids.drop_first(), rest);
        assert(seq![ids[0]] + ids.drop_first() =~= ids);
    }
}

/// Reading an encoded item gives the item back.
pub proof fn lemma_parse_item_enc(it: ItemView, rest: Seq<char>)
    ensures
        parse_item(enc_item(it) + rest) == Some((it, rest)),
{
    reveal(parse_item);
    let s = enc_item(it) + rest;
    let t6 = seq![']'] + rest;
    let t5 = enc_unit_list(it.units) + t6;
    let c4 = seq![','] + t5;
    let t4 = enc_opt_string(it.ean) + c4;
    let c3 = seq![','] + t4;
    let t3 = enc_string(it.name) + c3;
    let c2 = seq![','] + t3;
    let t2 = enc_id(it.inventory_uuid) + c2;
    let c1 = seq![','] + t2;
    let t1 = enc_id(it.uuid) + c1;
    let p0 = seq!['['];
    let p1 = p0 + enc_id(it.uuid);
    let p2 = p1 + seq![','];
    let p3 = p2 + enc_id(it.inventory_uuid);
    let p4 = p3 + seq![','];
    let p5 = p4 + enc_string(it.name);
    let p6 = p5 + seq![','];
    let p7 = p6 + enc_opt_string(it.ean);
    let p8 = p7 + seq![','];
    let p9 = p8 + enc_unit_list(it.units);
    let p10 = p9 + seq![']'];
    assert(enc_item(it) == p10);
    lemma_assoc(p9, seq![']'], rest);
    assert(s == p9 + t6);
    lemma_assoc(p8, enc_unit_list(it.units), t6);
    assert(s == p8 + t5);
    lemma_assoc(p7, seq![','], t5);
    assert(s == p7 + c4);
    lemma_assoc(p6, enc_opt_string(it.ean), c4);
    assert(s == p6 + t4);
    lemma_assoc(p5, seq![','], t4);
    assert(s == p5 + c3);
    lemma_assoc(p4, enc_string(it.name), c3);
    assert(s == p4 + t3);
    lemma_assoc(p3, seq![','], t3);
    assert(s == p3 + c2);
    lemma_assoc(p2, enc_id(it.inventory_uuid), c2);
    assert(s == p2 + t2);
    lemma_assoc(p1, seq![','], t2);
    assert(s == p1 + c1);
    lemma_assoc(p0, enc_id(it.uuid), c1);
    assert(s == p0 + t1);
    lemma_cons_first('[', t1);
    lemma_parse_id_enc(it.uuid, c1);
    lemma_cons_first(',', t2);
    lemma_parse_id_enc(it.inventory_uuid, c2);
    lemma_cons_first(',', t3);
    lemma_parse_string_enc(it.name, c3);
    lemma_cons_first(',', t4);
    lemma_parse_opt_string_enc(it.ean, c4);
    lemma_cons_first(',', t5);
    lemma_parse_unit_list_enc(it.units, t6);
    lemma_cons_first(']', rest);
}

/// Reading the encoded tail of an item array gives the items back.
pub proof fn lemma_parse_item_rest_enc(items: Seq<ItemView>, rest: Seq<char>)
    ensures
        parse_item_rest(enc_item_rest(items) + rest) == Some((items, rest)),
    decreases items.len(),
{
    let s = enc_item_rest(items) + rest;
    if items.len() == 0 {
        assert(s =~= seq![']'] + rest);
        assert(s[0] == ']');
        assert(s.drop_first() =~= rest);
    } else {
        let tail = enc_item_rest(items.drop_first()) + rest;
        assert(s =~= seq![','] + (enc_item(items[0]) + tail));
        assert(s[0] == ',');
        assert(s.drop_first() =~= enc_item(items[0]) + tail);
        lemma_parse_item_enc(items[0], tail);
        assert(tail.len() < s.len()) by {
            assert(enc_item(items[0])[0] == '[');
        }
        lemma_parse_item_rest_enc(items.drop_first(), rest);
        assert(seq![items[0]] + items.drop_first() =~= items);
    }
}

/// Reading an encoded item array gives the items back.
pub proof fn lemma_parse_item_list_enc(items: Seq<ItemView>, rest: Seq<char>)
    ensures
        parse_item_list(enc_item_list(items) + rest) == Some((items, rest)),
{
    let s = enc_item_list(items) + rest;
    if items.len() == 0 {
        assert(s =~= seq!['['] + (seq![']'] + rest));
        assert(s[0] == '[');
        assert(s.drop_first() =~= seq![']'] + rest);
        assert((seq![']'] + rest)[0] == ']');
        assert((seq![']'] + rest).drop_first() =~= rest);
    } else {
        let tail = enc_item_rest(items.drop_first()) + rest;
        let r = enc_item(items[0]) + tail;
        assert(s =~= seq!['['] + r);
        assert(s[0] == '[');
        assert(s.drop_first() =~= r);
        assert(r[0] == '[') by {
            assert(enc_item(items[0])[0] == '[');
        }
        lemma_parse_item_enc(items[0], tail);
        assert(tail.len() < r.len()) by {
            assert(enc_item(items[0])[0] == '[');
        }
        lemma_parse_item_rest_enc(items.drop_first(), rest);
        assert(seq![items[0]] + items.drop_first() =~= items);
    }
}

/// Reading an encoded inventory gives the inventory back.
pub proof fn lemma_parse_inventory_enc(inv: InventoryView, rest: Seq<char>)
    ensures
        parse_inventory(enc_inventory(inv) + rest) == Some((inv, rest)),
{
    reveal(parse_inventory);
    let s = enc_inventory(inv) + rest;
    let t8 = seq![']'] + rest;
    let t7 = enc_item_list(inv.items) + t8;
    let c6 = seq![','] + t7;
    let t6 = enc_id_list(inv.readables) + c6;
    let c5 = seq![','] + t6;
    let t5 = enc_id_list(inv.writables) + c5;
    let c4 = seq![','] + t5;
    let t4 = enc_id_list(inv.admins) + c4;
    let c3 = seq![','] + t4;
    let t3 = enc_id(inv.owner) + c3;
    let c2 = seq![','] + t3;
    let t2 = enc_string(inv.name) + c2;
    let c1 = seq![','] + t2;
    let t1 = enc_id(inv.uuid) + c1;
    let p0 = seq!['['];
    let p1 = p0 + enc_id(inv.uuid);
    let p2 = p1 + seq![','];
    let p3 = p2 + enc_string(inv.name);
    let p4 = p3 + seq![','];
    let p5 = p4 + enc_id(inv.owner);
    let p6 = p5 + seq![','];
    let p7 = p6 + enc_id_list(inv.admins);
    let p8 = p7 + seq![','];
    let p9 = p8 + enc_id_list(inv.writables);
    let p10 = p9 + seq![','];
    let p11 = p10 + enc_id_list(inv.readables);
    let p12 = p11 + seq![','];
    let p13 = p12 + enc_item_list(inv.items);
    let p14 = p13 + seq![']'];
    assert(enc_inventory(inv) == p14);
    lemma_assoc(p13, seq![']'], rest);
    assert(s == p13 + t8);
    lemma_assoc(p12, enc_item_list(inv.items), t8);
    assert(s == p12 + t7);
    lemma_assoc(p11, seq![','], t7);
    assert(s == p11 + c6);
    lemma_assoc(p10, enc_id_list(inv.readables), c6);
    assert(s == p10 + t6);
    lemma_assoc(p9, seq![','], t6);
    assert(s == p9 + c5);
    lemma_assoc(p8, enc_id_list(inv.writables), c5);
    assert(s == p8 + t5);
    lemma_assoc(p7, seq![','], t5);
    assert(s == p7 + c4);
    lemma_assoc(p6, enc_id_list(inv.admins), c4);
    assert(s == p6 + t4);
    lemma_assoc(p5, seq![','], t4);
    assert(s == p5 + c3);
    lemma_assoc(p4, enc_id(inv.owner), c3);
    assert(s == p4 + t3);
    lemma_assoc(p3, seq![','], t3);
    assert(s == p3 + c2);
    lemma_assoc(p2, enc_string(inv.name), c2);
    assert(s == p2 + t2);
    lemma_assoc(p1, seq![','], t2);
    assert(s == p1 + c1);
    lemma_assoc(p0, enc_id(inv.uuid), c1);
    assert(s == p0 + t1);
    lemma_cons_first('[', t1);
    lemma_parse_id_enc(inv.uuid, c1);
    lemma_cons_first(',', t2);
    lemma_parse_string_enc(inv.name, c2);
    lemma_cons_first(',', t3);
    lemma_parse_id_enc(inv.owner, c3);
    lemma_cons_first(',', t4);
    lemma_parse_id_list_enc(inv.admins, c4);
    lemma_cons_first(',', t5);
    lemma_parse_id_list_enc(inv.writables, c5);
    lemma_cons_first(',', t6);
    lemma_parse_id_list_enc(inv.readables, c6);
    lemma_cons_first(',', t7);
    lemma_parse_item_list_enc(inv.items, t8);
    lemma_cons_first(']', rest);
}

/// Reading the encoded tail of the top-level array gives the inventories
/// back.
#[verifier::rlimit(80)]
pub proof fn lemma_parse_inventory_rest_enc(invs: Seq<InventoryView>, rest: Seq<char>)
    ensures
        parse_inventory_rest(enc_inventory_rest(invs) + rest) == Some((invs, rest)),
    decreases invs.len(),
{
    let s = enc_inventory_rest(invs) + rest;
    if invs.len() == 0 {
        assert(s =~= seq![']'] + rest);
        assert(s[0] == ']');
        assert(s.drop_first() =~= rest);
    } else {
        let tail = enc_inventory_rest(invs.drop_first()) + rest;
        assert(s =~= seq![','] + (enc_inventory(invs[0]) + tail));
        assert(s[0] == ',');
        assert(s.drop_first() =~= enc_inventory(invs[0]) + tail);
        lemma_parse_inventory_enc(invs[0], tail);
        assert(tail.len() < s.len()) by {
            assert(enc_inventory(invs[0])[0] == '[');
        }
        lemma_parse_inventory_rest_enc(invs.drop_first(), rest);
        assert(seq![invs[0]] + invs.drop_first() =~= invs);
    }
}

/// Reading an encoded top-level array gives the inventories back.
#[verifier::rlimit(80)]
pub proof fn lemma_parse_inventory_list_enc(invs: Seq<InventoryView>, rest: Seq<char>)
    ensures
        parse_inventory_list(snapshot_text(invs) + rest) == Some((invs, rest)),
{
    let s = snapshot_text(invs) + rest;
    if invs.len() == 0 {
        assert(s =~= seq!['['] + (seq![']'] + rest));
        assert(s[0] == '[');
        assert(s.drop_first() =~= seq![']'] + rest);
        assert((seq![']'] + rest)[0] == ']');
        assert((seq![']'] + rest).drop_first() =~= rest);
    } else {
        let tail = enc_inventory_rest(invs.drop_first()) + rest;
        let r = enc_inventory(invs[0]) + tail;
        assert(s =~= seq!['['] + r);
        assert(s[0] == '[');
        assert(s.drop_first() =~= r);
        assert(r[0] == '[') by {
            assert(enc_inventory(invs[0])[0] == '[');
        }
        lemma_parse_inventory_enc(invs[0], tail);
        assert(tail.len() < r.len()) by {
            assert(enc_inventory(invs[0])[0] == '[');
        }
        lemma_parse_inventory_rest_enc(invs.drop_first(), rest);
        assert(seq![invs[0]] + invs.drop_first() =~= invs);
    }
}

/// Serializing a collection and reading the result back reproduces the
/// collection exactly, nested items, units and access tiers included.
pub proof fn lemma_snapshot_round_trip(invs: Seq<InventoryView>)
    ensures
        parse_snapshot(snapshot_text(invs)) == Some(invs),
{
    lemma_parse_inventory_list_enc(invs, Seq::<char>::empty());
    assert(snapshot_text(invs) + Seq::<char>::empty() =~= snapshot_text(invs));
}

/// The body of a quoted string grows one escape at a time.
pub proof fn lemma_enc_escaped_snoc(x: Seq<char>, c: char)
    ensures
        enc_escaped(x.push(c)) == enc_escaped(x) + esc_char(c),
    decreases x.len(),
{
    if x.len() == 0 {
        assert(x.push(c)[0] == c);
        assert(x.push(c).drop_first() =~= Seq::<char>::empty());
        assert(enc_escaped(Seq::<char>::empty()) =~= Seq::<char>::empty());
        assert(enc_escaped(x.push(c)) =~= esc_char(c));
        assert(enc_escaped(x) + esc_char(c) =~= esc_char(c));
    } else {
        assert(x.push(c)[0] == x[0]);
        assert(x.push(c).drop_first() =~= x.drop_first().push(c));
        lemma_enc_escaped_snoc(x.drop_first(), c);
        assert(esc_char(x[0]) + (enc_escaped(x.drop_first()) + esc_char(c)) =~= (esc_char(x[0])
            + enc_escaped(x.drop_first())) + esc_char(c));
    }
}

/// Collects the characters of a string slice.
pub fn str_chars(s: &str) -> (r: Vec<char>)
    ensures
        r@ == s@,
{
    let mut r: Vec<char> = Vec::new();
    for c in it: s.chars()
        invariant
            r@ =~= it.seq().take(it.index()),
    {
        r.push(c);
    }
    proof {
        assert(r@ =~= s@);
    }
    r
}

/// Appends one character to a string.
///
/// Relies on String::push: the character is appended at the end.
#[verifier::external_body]
fn push_char(s: &mut String, c: char)
    ensures
        final(s)@ == old(s)@.push(c),
{
    s.push(c);
}

/// Builds a string from a list of characters.
pub fn chars_to_string(v: &Vec<char>) -> (r: String)
    ensures
        r@ == v@,
{
    let mut r = String::new();
    let mut k: usize = 0;
    while k < v.len()
        invariant
            k <= v@.len(),
            r@ =~= v@.take(k as int),
        decreases v@.len() - k,
    {
        push_char(&mut r, v[k]);
        k += 1;
    }
    proof {
        assert(r@ =~= v@);
    }
    r
}

/// Appends the decimal rendering of a number.
fn push_u128(out: &mut Vec<char>, n: u128)
    ensures
        final(out)@ == old(out)@ + enc_u128(n as nat),
    decreases n,
{
    if n >= 10 {
        push_u128(out, n / 10);
    }
    let d = n % 10;
    let c = if d == 0 {
        '0'
    } else if d == 1 {
        '1'
    } else if d == 2 {
        '2'
    } else if d == 3 {
        '3'
    } else if d == 4 {
        '4'
    } else if d == 5 {
        '5'
    } else if d == 6 {
        '6'
    } else if d == 7 {
        '7'
    } else if d == 8 {
        '8'
    } else {
        '9'
    };
    out.push(c);
    proof {
        assert(c == dec_digit((n % 10) as int));
        if n < 10 {
            assert(enc_u128(n as nat) =~= seq![dec_digit(n as int)]);
            assert(final(out)@ =~= old(out)@ + enc_u128(n as nat));
        } else {
            assert(final(out)@ =~= old(out)@ + enc_u128(n as nat));
        }
    }
}

/// Appends a quoted string.
fn push_string(out: &mut Vec<char>, s: &String)
    ensures
        final(out)@ == old(out)@ + enc_string(s@),
{
    let cs = str_chars(s.as_str());
    out.push('"');
    let mut k: usize = 0;
    while k < cs.len()
        invariant
            k <= cs@.len(),
            cs@ == s@,
            out@ =~= old(out)@ + seq!['"'] + enc_escaped(cs@.take(k as int)),
        decreases cs@.len() - k,
    {
        let c = cs[k];
        if c == '"' || c == '\\' {
            out.push('\\');
        }
        out.push(c);
        proof {
            assert(cs@.take(k as int).push(c) =~= cs@.take(k as int + 1));
            lemma_enc_escaped_snoc(cs@.take(k as int), c);
            assert(out@ =~= old(out)@ + seq!['"'] + enc_escaped(cs@.take(k as int + 1)));
        }
        k += 1;
    }
    out.push('"');
    proof {
        assert(cs@.take(cs@.len() as int) =~= cs@);
        assert(out@ =~= old(out)@ + enc_string(s@));
    }
}

/// Appends a quoted string or `null`.
fn push_opt_string(out: &mut Vec<char>, s: &Option<String>)
    ensures
        final(out)@ == old(out)@ + enc_opt_string(crate::domain::opt_text_view(*s)),
{
    match s {
        Some(x) => {
            push_string(out, x);
        },
        None => {
            out.push('n');
            out.push('u');
            out.push('l');
            out.push('l');
            proof {
                assert(out@ =~= old(out)@ + seq!['n', 'u', 'l', 'l']);
            }
        },
    }
}

/// Appends an encoded unit.
fn push_unit(out: &mut Vec<char>, u: &Unit)
    ensures
        final(out)@ == old(out)@ + enc_unit(u@),
{
    out.push('[');
    push_u128(out, u.uuid.value);
    out.push(',');
    push_u128(out, u.item_uuid.value);
    out.push(',');
    push_u128(out, u.inventory_uuid.value);
    out.push(',');
    push_string(out, &u.name);
    out.push(']');
    proof {
        assert(final(out)@ =~= old(out)@ + enc_unit(u@));
    }
}

/// Appends the tail of a unit array, from index `k` on.
fn push_unit_rest(out: &mut Vec<char>, v: &Vec<Unit>, k: usize)
    requires
        k <= v@.len(),
    ensures
        final(out)@ == old(out)@ + enc_unit_rest(v@.map_values(|u: Unit| u@).skip(k as int)),
    decreases v@.len() - k,
{
    let ghost units = v@.map_values(|u: Unit| u@);
    if k == v.len() {
        out.push(']');
        proof {
            assert(units.skip(k as int) =~= Seq::<UnitView>::empty());
            assert(final(out)@ =~= old(out)@ + enc_unit_rest(units.skip(k as int)));
        }
    } else {
        out.push(',');
        push_unit(out, &v[k]);
        push_unit_rest(out, v, k + 1);
        proof {
            assert(units.skip(k as int)[0] == v@[k as int]@);
            assert(units.skip(k as int).drop_first() =~= units.skip(k as int + 1));
            assert(final(out)@ =~= old(out)@ + enc_unit_rest(units.skip(k as int)));
        }
    }
}

/// Appends an encoded unit array.
fn push_unit_list(out: &mut Vec<char>, v: &Vec<Unit>)
    ensures
        final(out)@ == old(out)@ + enc_unit_list(v@.map_values(|u: Unit| u@)),
{
    let ghost units = v@.map_values(|u: Unit| u@);
    out.push('[');
    if v.len() == 0 {
        out.push(']');
        proof {
            assert(final(out)@ =~= old(out)@ + enc_unit_list(units));
        }
    } else {
        push_unit(out, &v[0]);
        push_unit_rest(out, v, 1);
        proof {
            assert(units[0] == v@[0]@);
            assert(units.drop_first() =~= units.skip(1));
            assert(final(out)@ =~= old(out)@ + enc_unit_list(units));
        }
    }
}

/// Appends the tail of an identifier array, from index `k` on.
fn push_id_rest(out: &mut Vec<char>, v: &Vec<Id>, k: usize)
    requires
        k <= v@.len(),
    ensures
        final(out)@ == old(out)@ + enc_id_rest(v@.skip(k as int)),
    decreases v@.len() - k,
{
    if k == v.len() {
        out.push(']');
        proof {
            assert(v@.skip(k as int) =~= Seq::<Id>::empty());
            assert(final(out)@ =~= old(out)@ + enc_id_rest(v@.skip(k as int)));
        }
    } else {
        out.push(',');
        push_u128(out, v[k].value);
        push_id_rest(out, v, k + 1);
        proof {
            assert(v@.skip(k as int)[0] == v@[k as int]);
            assert(v@.skip(k as int).drop_first() =~= v@.skip(k as int + 1));
            assert(final(out)@ =~= old(out)@ + enc_id_rest(v@.skip(k as int)));
        }
    }
}

/// Appends an encoded identifier array.
fn push_id_list(out: &mut Vec<char>, v: &Vec<Id>)
    ensures
        final(out)@ == old(out)@ + enc_id_list(v@),
{
    out.push('[');
    if v.len() == 0 {
        out.push(']');
        proof {
            assert(final(out)@ =~= old(out)@ + enc_id_list(v@));
        }
    } else {
        push_u128(out, v[0].value);
        push_id_rest(out, v, 1);
        proof {
            assert(v@.drop_first() =~= v@.skip(1));
            assert(final(out)@ =~= old(out)@ + enc_id_list(v@));
        }
    }
}

/// Appends an encoded item.
fn push_item(out: &mut Vec<char>, it: &Item)
    ensures
        final(out)@ == old(out)@ + enc_item(it@),
{
    out.push('[');
    push_u128(out, it.uuid.value);
    out.push(',');
    push_u128(out, it.inventory_uuid.value);
    out.push(',');
    push_string(out, &it.name);
    out.push(',');
    push_opt_string(out, &it.ean);
    out.push(',');
    push_unit_list(out, &it.units);
    out.push(']');
    proof {
        assert(final(out)@ =~= old(out)@ + enc_item(it@));
    }
}

/// Appends the tail of an item array, from index `k` on.
fn push_item_rest(out: &mut Vec<char>, v: &Vec<Item>, k: usize)
    requires
        k <= v@.len(),
    ensures
        final(out)@ == old(out)@ + enc_item_rest(v@.map_values(|i: Item| i@).skip(k as int)),
    decreases v@.len() - k,
{
    let ghost items = v@.map_values(|i: Item| i@);
    if k == v.len() {
        out.push(']');
        proof {
            assert(items.skip(k as int) =~= Seq::<ItemView>::empty());
            assert(final(out)@ =~= old(out)@ + enc_item_rest(items.skip(k as int)));
        }
    } else {
        out.push(',');
        push_item(out, &v[k]);
        push_item_rest(out, v, k + 1);
        proof {
            assert(items.skip(k as int)[0] == v@[k as int]@);
            assert(items.skip(k as int).drop_first() =~= items.skip(k as int + 1));
            assert(final(out)@ =~= old(out)@ + enc_item_rest(items.skip(k as int)));
        }
    }
}

/// Appends an encoded item array.
fn push_item_list(out: &mut Vec<char>, v: &Vec<Item>)
    ensures
        final(out)@ == old(out)@ + enc_item_list(v@.map_values(|i: Item| i@)),
{
    let ghost items = v@.map_values(|i: Item| i@);
    out.push('[');
    if v.len() == 0 {
        out.push(']');
        proof {
            assert(final(out)@ =~= old(out)@ + enc_item_list(items));
        }
    } else {
        push_item(out, &v[0]);
        push_item_rest(out, v, 1);
        proof {
            assert(items[0] == v@[0]@);
            assert(items.drop_first() =~= items.skip(1));
            assert(final(out)@ =~= old(out)@ + enc_item_list(items));
        }
    }
}

/// Appends an encoded inventory.
fn push_inventory(out: &mut Vec<char>, inv: &Inventory)
    ensures
        final(out)@ == old(out)@ + enc_inventory(inv@),
{
    let ghost base = out@;
    out.push('[');
    proof {
        assert(out@ =~= base + seq!['[']);
    }
    let ghost a1 = seq!['['];
    push_u128(out, inv.uuid.value);
    proof {
        lemma_assoc(base, a1, enc_id(inv@.uuid));
    }
    let ghost a2 = a1 + enc_id(inv@.uuid);
    out.push(',');
    proof {
        assert(out@ =~= (base + a2) + seq![',']);
        lemma_assoc(base, a2, seq![',']);
    }
    let ghost a3 = a2 + seq![','];
    push_string(out, &inv.name);
    proof {
        lemma_assoc(base, a3, enc_string(inv@.name));
    }
    let ghost a4 = a3 + enc_string(inv@.name);
    out.push(',');
    proof {
        assert(out@ =~= (base + a4) + seq![',']);
        lemma_assoc(base, a4, seq![',']);
    }
    let ghost a5 = a4 + seq![','];
    push_u128(out, inv.owner.value);
    proof {
        lemma_assoc(base, a5, enc_id(inv@.owner));
    }
    let ghost a6 = a5 + enc_id(inv@.owner);
    out.push(',');
    proof {
        assert(out@ =~= (base + a6) + seq![',']);
        lemma_assoc(base, a6, seq![',']);
    }
    let ghost a7 = a6 + seq![','];
    push_id_list(out, &inv.admins);
    proof {
        lemma_assoc(base, a7, enc_id_list(inv@.admins));
    }
    let ghost a8 = a7 + enc_id_list(inv@.admins);
    out.push(',');
    proof {
        assert(out@ =~= (base + a8) + seq![',']);
        lemma_assoc(base, a8, seq![',']);
    }
    let ghost a9 = a8 + seq![','];
    push_id_list(out, &inv.writables);
    proof {
        lemma_assoc(base, a9, enc_id_list(inv@.writables));
    }
    let ghost a10 = a9 + enc_id_list(inv@.writables);
    out.push(',');
    proof {
        assert(out@ =~= (base + a10) + seq![',']);
        lemma_assoc(base, a10, seq![',']);
    }
    let ghost a11 = a10 + seq![','];
    push_id_list(out, &inv.readables);
    proof {
        lemma_assoc(base, a11, enc_id_list(inv@.readables));
    }
    let ghost a12 = a11 + enc_id_list(inv@.readables);
    out.push(',');
    proof {
        assert(out@ =~= (base + a12) + seq![',']);
        lemma_assoc(base, a12, seq![',']);
    }
    let ghost a13 = a12 + seq![','];
    push_item_list(out, &inv.items);
    proof {
        lemma_assoc(base, a13, enc_item_list(inv@.items));
    }
    let ghost a14 = a13 + enc_item_list(inv@.items);
    out.push(']');
    proof {
        assert(out@ =~= (base + a14) + seq![']']);
        lemma_assoc(base, a14, seq![']']);
        assert(a14 + seq![']'] == enc_inventory(inv@));
        assert(out@ == base + enc_inventory(inv@));
    }
}

/// Appends the tail of the top-level inventory array, from index `k` on.
fn push_inventory_rest(out: &mut Vec<char>, v: &Vec<Inventory>, k: usize)
    requires
        k <= v@.len(),
    ensures
        final(out)@ == old(out)@ + enc_inventory_rest(
            v@.map_values(|i: Inventory| i@).skip(k as int),
        ),
    decreases v@.len() - k,
{
    let ghost invs = v@.map_values(|i: Inventory| i@);
    if k == v.len() {
        out.push(']');
        proof {
            assert(invs.skip(k as int) =~= Seq::<InventoryView>::empty());
            assert(final(out)@ =~= old(out)@ + enc_inventory_rest(invs.skip(k as int)));
        }
    } else {
        out.push(',');
        push_inventory(out, &v[k]);
        push_inventory_rest(out, v, k + 1);
        proof {
            assert(invs.skip(k as int)[0] == v@[k as int]@);
            assert(invs.skip(k as int).drop_first() =~= invs.skip(k as int + 1));
            assert(final(out)@ =~= old(out)@ + enc_inventory_rest(invs.skip(k as int)));
        }
    }
}

/// Renders the whole collection as its durable snapshot text.
pub fn encode_snapshot(v: &Vec<Inventory>) -> (r: String)
    ensures
        r@ == snapshot_text(crate::domain::inventories_view(v@)),
{
    let ghost invs = v@.map_values(|i: Inventory| i@);
    let mut out: Vec<char> = Vec::new();
    out.push('[');
    if v.len() == 0 {
        out.push(']');
        proof {
            assert(out@ =~= snapshot_text(invs));
        }
    } else {
        push_inventory(&mut out, &v[0]);
        push_inventory_rest(&mut out, v, 1);
        proof {
            assert(invs[0] == v@[0]@);
            assert(invs.drop_first() =~= invs.skip(1));
            assert(out@ =~= snapshot_text(invs));
        }
    }
    chars_to_string(&out)
}

/// Folding digits never decreases the accumulator.
proof fn lemma_parse_digits_lower(s: Seq<char>, acc: nat)
    ensures
        parse_digits(s, acc).0 >= acc,
    decreases s.len(),
{
    if s.len() > 0 && digit_val(s[0]) >= 0 {
        lemma_parse_digits_lower(s.drop_first(), acc * 10 + digit_val(s[0]) as nat);
    }
}

/// The digit value of a character, if it is a digit.
fn digit_of(c: char) -> (r: Option<u8>)
    ensures
        match r {
            Some(d) => digit_val(c) == d as int,
            None => digit_val(c) < 0,
        },
{
    if c == '0' {
        Some(0)
    } else if c == '1' {
        Some(1)
    } else if c == '2' {
        Some(2)
    } else if c == '3' {
        Some(3)
    } else if c == '4' {
        Some(4)
    } else if c == '5' {
        Some(5)
    } else if c == '6' {
        Some(6)
    } else if c == '7' {
        Some(7)
    } else if c == '8' {
        Some(8)
    } else if c == '9' {
        Some(9)
    } else {
        None
    }
}

/// Consumes one expected character at position `i`.
fn p_char(v: &Vec<char>, i: usize, c: char) -> (r: Option<usize>)
    requires
        i <= v@.len(),
    ensures
        match r {
            Some(j) => {
                &&& j == i + 1
                &&& j <= v@.len()
                &&& expect(v@.skip(i as int), c) == Some(v@.skip(j as int))
            },
            None => expect(v@.skip(i as int), c) == None::<Seq<char>>,
        },
{
    if i < v.len() && v[i] == c {
        proof {
            assert(v@.skip(i as int)[0] == v@[i as int]);
            assert(v@.skip(i as int).drop_first() =~= v@.skip(i as int + 1));
        }
        Some(i + 1)
    } else {
        proof {
            if i < v@.len() {
                assert(v@.skip(i as int)[0] == v@[i as int]);
            }
        }
        None
    }
}

/// Reads a number at position `i`.
fn p_u128(v: &Vec<char>, i: usize) -> (r: Option<(u128, usize)>)
    requires
        i <= v@.len(),
    ensures
        match r {
            Some(p) => {
                &&& i < p.1 <= v@.len()
                &&& parse_u128(v@.skip(i as int)) == Some((p.0, v@.skip(p.1 as int)))
            },
            None => parse_u128(v@.skip(i as int)) == None::<(u128, Seq<char>)>,
        },
{
    if i >= v.len() {
        return None;
    }
    proof {
        assert(v@.skip(i as int)[0] == v@[i as int]);
    }
    let d0 = match digit_of(v[i]) {
        Some(d) => d,
        None => {
            return None;
        },
    };
    let mut acc: u128 = d0 as u128;
    let mut k: usize = i + 1;
    proof {
        assert(v@.skip(i as int).drop_first() =~= v@.skip(i as int + 1));
        assert(parse_digits(v@.skip(i as int), 0) == parse_digits(v@.skip(k as int), acc as nat));
    }
    loop
        invariant
            i < k <= v@.len(),
            digit_val(v@[i as int]) >= 0,
            parse_digits(v@.skip(i as int), 0) == parse_digits(v@.skip(k as int), acc as nat),
        ensures
            i < k <= v@.len(),
            parse_digits(v@.skip(i as int), 0) == parse_digits(v@.skip(k as int), acc as nat),
            k == v@.len() || digit_val(v@[k as int]) < 0,
        decreases v@.len() - k,
    {
        if k >= v.len() {
            break ;
        }
        proof {
            assert(v@.skip(k as int)[0] == v@[k as int]);
        }
        let d = match digit_of(v[k]) {
            Some(d) => d,
            None => {
                break ;
            },
        };
        if acc > (u128::MAX - d as u128) / 10 {
            proof {
                let a = acc as nat;
                let dv = d as nat;
                let m = u128::MAX as nat;
                assert(a >= (m - dv) / 10 + 1);
                assert(((m - dv) / 10 + 1) * 10 == ((m - dv) / 10) * 10 + 10)
                    by (nonlinear_arith);
                assert(a * 10 >= ((m - dv) / 10 + 1) * 10) by (nonlinear_arith)
                    requires
                        a >= (m - dv) / 10 + 1,
                ;
                assert(((m - dv) / 10) * 10 > m - dv - 10);
                assert(a * 10 + dv > m);
                assert(v@.skip(k as int).drop_first() =~= v@.skip(k as int + 1));
                assert(parse_digits(v@.skip(k as int), a) == parse_digits(
                    v@.skip(k as int + 1),
                    a * 10 + dv,
                ));
                lemma_parse_digits_lower(v@.skip(k as int + 1), a * 10 + dv);
                assert(parse_digits(v@.skip(i as int), 0).0 > m);
            }
            return None;
        }
        proof {
            let a = acc as nat;
            let dv = d as nat;
            let m = u128::MAX as nat;
            assert(a <= (m - dv) / 10);
            assert(a * 10 <= ((m - dv) / 10) * 10) by (nonlinear_arith)
                requires
                    a <= (m - dv) / 10,
            ;
            assert(((m - dv) / 10) * 10 <= m - dv);
            assert(a * 10 + dv <= m);
            assert(v@.skip(k as int).drop_first() =~= v@.skip(k as int + 1));
        }
        acc = acc * 10 + d as u128;
        k += 1;
    }
    proof {
        if k < v@.len() {
            assert(v@.skip(k as int)[0] == v@[k as int]);
        }
        assert(parse_digits(v@.skip(k as int), acc as nat) == (acc as nat, v@.skip(k as int)));
    }
    Some((acc, k))
}

/// Reads an identifier at position `i`.
fn p_id(v: &Vec<char>, i: usize) -> (r: Option<(Id, usize)>)
    requires
        i <= v@.len(),
    ensures
        match r {
            Some(p) => {
                &&& i < p.1 <= v@.len()
                &&& parse_id(v@.skip(i as int)) == Some((p.0, v@.skip(p.1 as int)))
            },
            None => parse_id(v@.skip(i as int)) == None::<(Id, Seq<char>)>,
        },
{
    match p_u128(v, i) {
        Some((n, j)) => Some((Id { value: n }, j)),
        None => None,
    }
}

/// Reads a quoted string's body at position `i`.
fn p_str_body(v: &Vec<char>, i: usize) -> (r: Option<(String, usize)>)
    requires
        i <= v@.len(),
    ensures
        match r {
            Some(p) => {
                &&& i < p.1 <= v@.len()
                &&& parse_str_body(v@.skip(i as int)) == Some((p.0@, v@.skip(p.1 as int)))
            },
            None => parse_str_body(v@.skip(i as int)) == None::<(Seq<char>, Seq<char>)>,
        },
    decreases v@.len() - i,
{
    if i >= v.len() {
        return None;
    }
    let c = v[i];
    proof {
        assert(v@.skip(i as int)[0] == v@[i as int]);
    }
    if c == '"' {
        proof {
            assert(v@.skip(i as int).drop_first() =~= v@.skip(i as int + 1));
        }
        let out = String::new();
        proof {
            assert(out@ =~= Seq::<char>::empty());
        }
        return Some((out, i + 1));
    }
    if c == '\\' {
        if i + 1 >= v.len() {
            proof {
                assert(v@.skip(i as int).len() < 2);
            }
            return None;
        }
        let e = v[i + 1];
        proof {
            assert(v@.skip(i as int)[1] == v@[i as int + 1]);
            assert(v@.skip(i as int).skip(2) =~= v@.skip(i as int + 2));
        }
        match p_str_body(v, i + 2) {
            Some((tail, j)) => {
                let mut out = String::new();
                push_char(&mut out, e);
                out.append(tail.as_str());
                proof {
                    assert(out@ =~= seq![v@[i as int + 1]] + tail@);
                }
                Some((out, j))
            },
            None => None,
        }
    } else {
        proof {
            assert(v@.skip(i as int).drop_first() =~= v@.skip(i as int + 1));
        }
        match p_str_body(v, i + 1) {
            Some((tail, j)) => {
                let mut out = String::new();
                push_char(&mut out, c);
                out.append(tail.as_str());
                proof {
                    assert(out@ =~= seq![v@[i as int]] + tail@);
                }
                Some((out, j))
            },
            None => None,
        }
    }
}

/// Reads a quoted string at position `i`.
fn p_string(v: &Vec<char>, i: usize) -> (r: Option<(String, usize)>)
    requires
        i <= v@.len(),
    ensures
        match r {
            Some(p) => {
                &&& i < p.1 <= v@.len()
                &&& parse_string(v@.skip(i as int)) == Some((p.0@, v@.skip(p.1 as int)))
            },
            None => parse_string(v@.skip(i as int)) == None::<(Seq<char>, Seq<char>)>,
        },
{
    match p_char(v, i, '"') {
        Some(j) => p_str_body(v, j),
        None => None,
    }
}

/// Reads a quoted string or `null` at position `i`.
fn p_opt_string(v: &Vec<char>, i: usize) -> (r: Option<(Option<String>, usize)>)
    requires
        i <= v@.len(),
    ensures
        match r {
            Some(p) => {
                &&& i < p.1 <= v@.len()
                &&& parse_opt_string(v@.skip(i as int)) == Some(
                    (crate::domain::opt_text_view(p.0), v@.skip(p.1 as int)),
                )
            },
            None => parse_opt_string(v@.skip(i as int)) == None::<
                (Option<Seq<char>>, Seq<char>),
            >,
        },
{
    if i < v.len() && v[i] == '"' {
        proof {
            assert(v@.skip(i as int)[0] == v@[i as int]);
        }
        match p_string(v, i) {
            Some((x, j)) => Some((Some(x), j)),
            None => None,
        }
    } else if i < v.len() && v.len() - i >= 4 && v[i] == 'n' && v[i + 1] == 'u' && v[i + 2] == 'l'
        && v[i + 3] == 'l' {
        proof {
            assert(v@.skip(i as int)[0] == v@[i as int]);
            assert(v@.skip(i as int)[1] == v@[i as int + 1]);
            assert(v@.skip(i as int)[2] == v@[i as int + 2]);
            assert(v@.skip(i as int)[3] == v@[i as int + 3]);
            assert(v@.skip(i as int).skip(4) =~= v@.skip(i as int + 4));
        }
        Some((None, i + 4))
    } else {
        proof {
            if i < v@.len() {
                assert(v@.skip(i as int)[0] == v@[i as int]);
                if v@.skip(i as int).len() >= 4 {
                    assert(v@.skip(i as int)[1] == v@[i as int + 1]);
                    assert(v@.skip(i as int)[2] == v@[i as int + 2]);
                    assert(v@.skip(i as int)[3] == v@[i as int + 3]);
                }
            }
        }
        None
    }
}

/// Reads one unit at position `i`.
fn p_unit(v: &Vec<char>, i: usize) -> (r: Option<(Unit, usize)>)
    requires
        i <= v@.len(),
    ensures
        match r {
            Some(p) => {
                &&& i < p.1 <= v@.len()
                &&& parse_unit(v@.skip(i as int)) == Some((p.0@, v@.skip(p.1 as int)))
            },
            None => parse_unit(v@.skip(i as int)) == None::<(UnitView, Seq<char>)>,
        },
{
    proof {
        reveal(parse_unit);
    }
    let j1 = match p_char(v, i, '[') {
        Some(j) => j,
        None => {
            return None;
        },
    };
    let (uuid, j2) = match p_id(v, j1) {
        Some(p) => p,
        None => {
            return None;
        },
    };
    let j3 = match p_char(v, j2, ',') {
        Some(j) => j,
        None => {
            return None;
        },
    };
    let (item_uuid, j4) = match p_id(v, j3) {
        Some(p) => p,
        None => {
            return None;
        },
    };
    let j5 = match p_char(v, j4, ',') {
        Some(j) => j,
        None => {
            return None;
        },
    };
    let (inventory_uuid, j6) = match p_id(v, j5) {
        Some(p) => p,
        None => {
            return None;
        },
    };
    let j7 = match p_char(v, j6, ',') {
        Some(j) => j,
        None => {
            return None;
        },
    };
    let (name, j8) = match p_string(v, j7) {
        Some(p) => p,
        None => {
            return None;
        },
    };
    let j9 = match p_char(v, j8, ']') {
        Some(j) => j,
        None => {
            return None;
        },
    };
    Some((Unit { uuid, item_uuid, inventory_uuid, name }, j9))
}

/// Reads the tail of a unit array at position `i`.
fn p_unit_rest(v: &Vec<char>, i: usize) -> (r: Option<(Vec<Unit>, usize)>)
    requires
        i <= v@.len(),
    ensures
        match r {
            Some(p) => {
                &&& i < p.1 <= v@.len()
                &&& parse_unit_rest(v@.skip(i as int)) == Some(
                    (p.0@.map_values(|u: Unit| u@), v@.skip(p.1 as int)),
                )
            },
            None => parse_unit_rest(v@.skip(i as int)) == None::<(Seq<UnitView>, Seq<char>)>,
        },
    decreases v@.len() - i,
{
    if i >= v.len() {
        return None;
    }
    proof {
        assert(v@.skip(i as int)[0] == v@[i as int]);
    }
    let c = v[i];
    if c == ']' {
        let out: Vec<Unit> = Vec::new();
        proof {
            assert(v@.skip(i as int).drop_first() =~= v@.skip(i as int + 1));
            assert(out@.map_values(|u: Unit| u@) =~= Seq::<UnitView>::empty());
        }
        return Some((out, i + 1));
    }
    if c != ',' {
        return None;
    }
    proof {
        assert(v@.skip(i as int).drop_first() =~= v@.skip(i as int + 1));
    }
    let (u, j) = match p_unit(v, i + 1) {
        Some(p) => p,
        None => {
            return None;
        },
    };
    proof {
        assert(v@.skip(j as int).len() < v@.skip(i as int).len());
    }
    let (mut rest, j2) = match p_unit_rest(v, j) {
        Some(p) => p,
        None => {
            return None;
        },
    };
    let ghost rv = rest@.map_values(|u: Unit| u@);
    rest.insert(0, u);
    proof {
        assert(rest@.map_values(|u: Unit| u@) =~= seq![u@] + rv);
    }
    Some((rest, j2))
}

/// Reads an array of units at position `i`.
fn p_unit_list(v: &Vec<char>, i: usize) -> (r: Option<(Vec<Unit>, usize)>)
    requires
        i <= v@.len(),
    ensures
        match r {
            Some(p) => {
                &&& i < p.1 <= v@.len()
                &&& parse_unit_list(v@.skip(i as int)) == Some(
                    (p.0@.map_values(|u: Unit| u@), v@.skip(p.1 as int)),
                )
            },
            None => parse_unit_list(v@.skip(i as int)) == None::<(Seq<UnitView>, Seq<char>)>,
        },
{
    let j1 = match p_char(v, i, '[') {
        Some(j) => j,
        None => {
            return None;
        },
    };
    if j1 < v.len() && v[j1] == ']' {
        let out: Vec<Unit> = Vec::new();
        proof {
            assert(v@.skip(j1 as int)[0] == v@[j1 as int]);
            assert(v@.skip(j1 as int).drop_first() =~= v@.skip(j1 as int + 1));
            assert(out@.map_values(|u: Unit| u@) =~= Seq::<UnitView>::empty());
        }
        return Some((out, j1 + 1));
    }
    proof {
        if j1 < v@.len() {
            assert(v@.skip(j1 as int)[0] == v@[j1 as int]);
        }
    }
    let (u, j2) = match p_unit(v, j1) {
        Some(p) => p,
        None => {
            return None;
        },
    };
    proof {
        assert(v@.skip(j2 as int).len() < v@.skip(j1 as int).len());
    }
    let (mut rest, j3) = match p_unit_rest(v, j2) {
        Some(p) => p,
        None => {
            return None;
        },
    };
    let ghost rv = rest@.map_values(|u: Unit| u@);
    rest.insert(0, u);
    proof {
        assert(rest@.map_values(|u: Unit| u@) =~= seq![u@] + rv);
    }
    Some((rest, j3))
}

/// Reads the tail of an identifier array at position `i`.
fn p_id_rest(v: &Vec<char>, i: usize) -> (r: Option<(Vec<Id>, usize)>)
    requires
        i <= v@.len(),
    ensures
        match r {
            Some(p) => {
                &&& i < p.1 <= v@.len()
                &&& parse_id_rest(v@.skip(i as int)) == Some((p.0@, v@.skip(p.1 as int)))
            },
            None => parse_id_rest(v@.skip(i as int)) == None::<(Seq<Id>, Seq<char>)>,
        },
    decreases v@.len() - i,
{
    if i >= v.len() {
        return None;
    }
    proof {
        assert(v@.skip(i as int)[0] == v@[i as int]);
    }
    let c = v[i];
    if c == ']' {
        let out: Vec<Id> = Vec::new();
        proof {
            assert(v@.skip(i as int).drop_first() =~= v@.skip(i as int + 1));
            assert(out@ =~= Seq::<Id>::empty());
        }
        return Some((out, i + 1));
    }
    if c != ',' {
        return None;
    }
    proof {
        assert(v@.skip(i as int).drop_first() =~= v@.skip(i as int + 1));
    }
    let (id, j) = match p_id(v, i + 1) {
        Some(p) => p,
        None => {
            return None;
        },
    };
    proof {
        assert(v@.skip(j as int).len() < v@.skip(i as int).len());
    }
    let (mut rest, j2) = match p_id_rest(v, j) {
        Some(p) => p,
        None => {
            return None;
        },
    };
    let ghost rv = rest@;
    rest.insert(0, id);
    proof {
        assert(rest@ =~= seq![id] + rv);
    }
    Some((rest, j2))
}

/// Reads an array of identifiers at position `i`.
fn p_id_list(v: &Vec<char>, i: usize) -> (r: Option<(Vec<Id>, usize)>)
    requires
        i <= v@.len(),
    ensures
        match r {
            Some(p) => {
                &&& i < p.1 <= v@.len()
                &&& parse_id_list(v@.skip(i as int)) == Some((p.0@, v@.skip(p.1 as int)))
            },
            None => parse_id_list(v@.skip(i as int)) == None::<(Seq<Id>, Seq<char>)>,
        },
{
    let j1 = match p_char(v, i, '[') {
        Some(j) => j,
        None => {
            return None;
        },
    };
    if j1 < v.len() && v[j1] == ']' {
        let out: Vec<Id> = Vec::new();
        proof {
            assert(v@.skip(j1 as int)[0] == v@[j1 as int]);
            assert(v@.skip(j1 as int).drop_first() =~= v@.skip(j1 as int + 1));
            assert(out@ =~= Seq::<Id>::empty());
        }
        return Some((out, j1 + 1));
    }
    proof {
        if j1 < v@.len() {
            assert(v@.skip(j1 as int)[0] == v@[j1 as int]);
        }
    }
    let (id, j2) = match p_id(v, j1) {
        Some(p) => p,
        None => {
            return None;
        },
    };
    proof {
        assert(v@.skip(j2 as int).len() < v@.skip(j1 as int).len());
    }
    let (mut rest, j3) = match p_id_rest(v, j2) {
        Some(p) => p,
        None => {
            return None;
        },
    };
    let ghost rv = rest@;
    rest.insert(0, id);
    proof {
        assert(rest@ =~= seq![id] + rv);
    }
    Some((rest, j3))
}

/// Reads one item at position `i`.
fn p_item(v: &Vec<char>, i: usize) -> (r: Option<(Item, usize)>)
    requires
        i <= v@.len(),
    ensures
        match r {
            Some(p) => {
                &&& i < p.1 <= v@.len()
                &&& parse_item(v@.skip(i as int)) == Some((p.0@, v@.skip(p.1 as int)))
            },
            None => parse_item(v@.skip(i as int)) == None::<(ItemView, Seq<char>)>,
        },
{
    proof {
        reveal(parse_item);
    }
    let j1 = match p_char(v, i, '[') {
        Some(j) => j,
        None => {
            return None;
        },
    };
    let (uuid, j2) = match p_id(v, j1) {
        Some(p) => p,
        None => {
            return None;
        },
    };
    let j3 = match p_char(v, j2, ',') {
        Some(j) => j,
        None => {
            return None;
        },
    };
    let (inventory_uuid, j4) = match p_id(v, j3) {
        Some(p) => p,
        None => {
            return None;
        },
    };
    let j5 = match p_char(v, j4, ',') {
        Some(j) => j,
        None => {
            return None;
        },
    };
    let (name, j6) = match p_string(v, j5) {
        Some(p) => p,
        None => {
            return None;
        },
    };
    let j7 = match p_char(v, j6, ',') {
        Some(j) => j,
        None => {
            return None;
        },
    };
    let (ean, j8) = match p_opt_string(v, j7) {
        Some(p) => p,
        None => {
            return None;
        },
    };
    let j9 = match p_char(v, j8, ',') {
        Some(j) => j,
        None => {
            return None;
        },
    };
    let (units, j10) = match p_unit_list(v, j9) {
        Some(p) => p,
        None => {
            return None;
        },
    };
    let j11 = match p_char(v, j10, ']') {
        Some(j) => j,
        None => {
            return None;
        },
    };
    Some((Item { uuid, inventory_uuid, name, ean, units }, j11))
}

/// Reads the tail of an item array at position `i`.
fn p_item_rest(v: &Vec<char>, i: usize) -> (r: Option<(Vec<Item>, usize)>)
    requires
        i <= v@.len(),
    ensures
        match r {
            Some(p) => {
                &&& i < p.1 <= v@.len()
                &&& parse_item_rest(v@.skip(i as int)) == Some(
                    (p.0@.map_values(|it: Item| it@), v@.skip(p.1 as int)),
                )
            },
            None => parse_item_rest(v@.skip(i as int)) == None::<(Seq<ItemView>, Seq<char>)>,
        },
    decreases v@.len() - i,
{
    if i >= v.len() {
        return None;
    }
    proof {
        assert(v@.skip(i as int)[0] == v@[i as int]);
    }
    let c = v[i];
    if c == ']' {
        let out: Vec<Item> = Vec::new();
        proof {
            assert(v@.skip(i as int).drop_first() =~= v@.skip(i as int + 1));
            assert(out@.map_values(|it: Item| it@) =~= Seq::<ItemView>::empty());
        }
        return Some((out, i + 1));
    }
    if c != ',' {
        return None;
    }
    proof {
        assert(v@.skip(i as int).drop_first() =~= v@.skip(i as int + 1));
    }
    let (it, j) = match p_item(v, i + 1) {
        Some(p) => p,
        None => {
            return None;
        },
    };
    proof {
        assert(v@.skip(j as int).len() < v@.skip(i as int).len());
    }
    let (mut rest, j2) = match p_item_rest(v, j) {
        Some(p) => p,
        None => {
            return None;
        },
    };
    let ghost rv = rest@.map_values(|x: Item| x@);
    rest.insert(0, it);
    proof {
        assert(rest@.map_values(|x: Item| x@) =~= seq![it@] + rv);
    }
    Some((rest, j2))
}

/// Reads an array of items at position `i`.
fn p_item_list(v: &Vec<char>, i: usize) -> (r: Option<(Vec<Item>, usize)>)
    requires
        i <= v@.len(),
    ensures
        match r {
            Some(p) => {
                &&& i < p.1 <= v@.len()
                &&& parse_item_list(v@.skip(i as int)) == Some(
                    (p.0@.map_values(|it: Item| it@), v@.skip(p.1 as int)),
                )
            },
            None => parse_item_list(v@.skip(i as int)) == None::<(Seq<ItemView>, Seq<char>)>,
        },
{
    let j1 = match p_char(v, i, '[') {
        Some(j) => j,
        None => {
            return None;
        },
    };
    if j1 < v.len() && v[j1] == ']' {
        let out: Vec<Item> = Vec::new();
        proof {
            assert(v@.skip(j1 as int)[0] == v@[j1 as int]);
            assert(v@.skip(j1 as int).drop_first() =~= v@.skip(j1 as int + 1));
            assert(out@.map_values(|it: Item| it@) =~= Seq::<ItemView>::empty());
        }
        return Some((out, j1 + 1));
    }
    proof {
        if j1 < v@.len() {
            assert(v@.skip(j1 as int)[0] == v@[j1 as int]);
        }
    }
    let (it, j2) = match p_item(v, j1) {
        Some(p) => p,
        None => {
            return None;
        },
    };
    proof {
        assert(v@.skip(j2 as int).len() < v@.skip(j1 as int).len());
    }
    let (mut rest, j3) = match p_item_rest(v, j2) {
        Some(p) => p,
        None => {
            return None;
        },
    };
    let ghost rv = rest@.map_values(|x: Item| x@);
    rest.insert(0, it);
    proof {
        assert(rest@.map_values(|x: Item| x@) =~= seq![it@] + rv);
    }
    Some((rest, j3))
}

/// Reads one inventory at position `i`.
fn p_inventory(v: &Vec<char>, i: usize) -> (r: Option<(Inventory, usize)>)
    requires
        i <= v@.len(),
    ensures
        match r {
            Some(p) => {
                &&& i < p.1 <= v@.len()
                &&& parse_inventory(v@.skip(i as int)) == Some((p.0@, v@.skip(p.1 as int)))
            },
            None => parse_inventory(v@.skip(i as int)) == None::<(InventoryView, Seq<char>)>,
        },
{
    proof {
        reveal(parse_inventory);
    }
    let j1 = match p_char(v, i, '[') {
        Some(j) => j,
        None => {
            return None;
        },
    };
    let (uuid, j2) = match p_id(v, j1) {
        Some(p) => p,
        None => {
            return None;
        },
    };
    let j3 = match p_char(v, j2, ',') {
        Some(j) => j,
        None => {
            return None;
        },
    };
    let (name, j4) = match p_string(v, j3) {
        Some(p) => p,
        None => {
            return None;
        },
    };
    let j5 = match p_char(v, j4, ',') {
        Some(j) => j,
        None => {
            return None;
        },
    };
    let (owner, j6) = match p_id(v, j5) {
        Some(p) => p,
        None => {
            return None;
        },
    };
    let j7 = match p_char(v, j6, ',') {
        Some(j) => j,
        None => {
            return None;
        },
    };
    let (admins, j8) = match p_id_list(v, j7) {
        Some(p) => p,
        None => {
            return None;
        },
    };
    let j9 = match p_char(v, j8, ',') {
        Some(j) => j,
        None => {
            return None;
        },
    };
    let (writables, j10) = match p_id_list(v, j9) {
        Some(p) => p,
        None => {
            return None;
        },
    };
    let j11 = match p_char(v, j10, ',') {
        Some(j) => j,
        None => {
            return None;
        },
    };
    let (readables, j12) = match p_id_list(v, j11) {
        Some(p) => p,
        None => {
            return None;
        },
    };
    let j13 = match p_char(v, j12, ',') {
        Some(j) => j,
        None => {
            return None;
        },
    };
    let (items, j14) = match p_item_list(v, j13) {
        Some(p) => p,
        None => {
            return None;
        },
    };
    let j15 = match p_char(v, j14, ']') {
        Some(j) => j,
        None => {
            return None;
        },
    };
    Some((Inventory { uuid, name, owner, admins, writables, readables, items }, j15))
}

/// Reads the tail of the top-level inventory array at position `i`.
fn p_inventory_rest(v: &Vec<char>, i: usize) -> (r: Option<(Vec<Inventory>, usize)>)
    requires
        i <= v@.len(),
    ensures
        match r {
            Some(p) => {
                &&& i < p.1 <= v@.len()
                &&& parse_inventory_rest(v@.skip(i as int)) == Some(
                    (p.0@.map_values(|x: Inventory| x@), v@.skip(p.1 as int)),
                )
            },
            None => parse_inventory_rest(v@.skip(i as int)) == None::<
                (Seq<InventoryView>, Seq<char>),
            >,
        },
    decreases v@.len() - i,
{
    if i >= v.len() {
        return None;
    }
    proof {
        assert(v@.skip(i as int)[0] == v@[i as int]);
    }
    let c = v[i];
    if c == ']' {
        let out: Vec<Inventory> = Vec::new();
        proof {
            assert(v@.skip(i as int).drop_first() =~= v@.skip(i as int + 1));
            assert(out@.map_values(|x: Inventory| x@) =~= Seq::<InventoryView>::empty());
        }
        return Some((out, i + 1));
    }
    if c != ',' {
        return None;
    }
    proof {
        assert(v@.skip(i as int).drop_first() =~= v@.skip(i as int + 1));
    }
    let (inv, j) = match p_inventory(v, i + 1) {
        Some(p) => p,
        None => {
            return None;
        },
    };
    proof {
        assert(v@.skip(j as int).len() < v@.skip(i as int).len());
    }
    let (mut rest, j2) = match p_inventory_rest(v, j) {
        Some(p) => p,
        None => {
            return None;
        },
    };
    let ghost rv = rest@.map_values(|x: Inventory| x@);
    rest.insert(0, inv);
    proof {
        assert(rest@.map_values(|x: Inventory| x@) =~= seq![inv@] + rv);
    }
    Some((rest, j2))
}

/// Reads the top-level inventory array at position `i`.
fn p_inventory_list(v: &Vec<char>, i: usize) -> (r: Option<(Vec<Inventory>, usize)>)
    requires
        i <= v@.len(),
    ensures
        match r {
            Some(p) => {
                &&& i < p.1 <= v@.len()
                &&& parse_inventory_list(v@.skip(i as int)) == Some(
                    (p.0@.map_values(|x: Inventory| x@), v@.skip(p.1 as int)),
                )
            },
            None => parse_inventory_list(v@.skip(i as int)) == None::<
                (Seq<InventoryView>, Seq<char>),
            >,
        },
{
    let j1 = match p_char(v, i, '[') {
        Some(j) => j,
        None => {
            return None;
        },
    };
    if j1 < v.len() && v[j1] == ']' {
        let out: Vec<Inventory> = Vec::new();
        proof {
            assert(v@.skip(j1 as int)[0] == v@[j1 as int]);
            assert(v@.skip(j1 as int).drop_first() =~= v@.skip(j1 as int + 1));
            assert(out@.map_values(|x: Inventory| x@) =~= Seq::<InventoryView>::empty());
        }
        return Some((out, j1 + 1));
    }
    proof {
        if j1 < v@.len() {
            assert(v@.skip(j1 as int)[0] == v@[j1 as int]);
        }
    }
    let (inv, j2) = match p_inventory(v, j1) {
        Some(p) => p,
        None => {
            return None;
        },
    };
    proof {
        assert(v@.skip(j2 as int).len() < v@.skip(j1 as int).len());
    }
    let (mut rest, j3) = match p_inventory_rest(v, j2) {
        Some(p) => p,
        None => {
            return None;
        },
    };
    let ghost rv = rest@.map_values(|x: Inventory| x@);
    rest.insert(0, inv);
    proof {
        assert(rest@.map_values(|x: Inventory| x@) =~= seq![inv@] + rv);
    }
    Some((rest, j3))
}

/// Reads a whole snapshot back into a collection. Anything but a complete,
/// well-shaped snapshot text yields nothing.
pub fn decode_snapshot(s: &str) -> (r: Option<Vec<Inventory>>)
    ensures
        match r {
            Some(v) => parse_snapshot(s@) == Some(crate::domain::inventories_view(v@)),
            None => parse_snapshot(s@) == None::<Seq<InventoryView>>,
        },
{
    let cs = str_chars(s);
    proof {
        assert(cs@.skip(0) =~= s@);
    }
    match p_inventory_list(&cs, 0) {
        Some((v, j)) => {
            if j == cs.len() {
                proof {
                    assert(cs@.skip(j as int).len() == 0);
                }
                Some(v)
            } else {
                proof {
                    assert(cs@.skip(j as int).len() > 0);
                }
                None
            }
        },
        None => None,
    }
}

} // verus!
