//! The cart: a mapping from product names to quantities, and its total
//! against a catalog.

use crate::calendar::CalendarDate;
use crate::catalog::{Item, PricingError};
use crate::pricing::{line_price, max_line_price, price_for};
use vstd::prelude::*;

verus! {

/// One line of a cart as the contracts see it: a product's name and the
/// quantity asked for.
pub type Line = (Seq<char>, u32);

/// One line of a cart.
#[derive(Clone, Debug)]
pub struct CartEntry {
    pub product: String,
    pub quantity: u32,
}

/// A cart. Each product name has at most one line.
pub struct ShoppingCart {
    products: Vec<CartEntry>,
}

/// The lines that cart entries stand for.
pub open spec fn lines_of(entries: Seq<CartEntry>) -> Seq<Line> {
    Seq::new(entries.len(), |i: int| (entries[i].product@, entries[i].quantity))
}

/// Whether `i` is the place of the first item of `catalog` named `name`.
pub open spec fn is_first_match(catalog: Seq<Item>, name: Seq<char>, i: int) -> bool {
    &&& 0 <= i < catalog.len()
    &&& catalog[i].name@ == name
    &&& forall|j: int| 0 <= j < i ==> (#[trigger] catalog[j]).name@ != name
}

/// The first item of `catalog` named `name`, if there is one.
pub open spec fn find_item(catalog: Seq<Item>, name: Seq<char>) -> Option<Item> {
    if exists|i: int| is_first_match(catalog, name, i) {
        Some(catalog[choose|i: int| is_first_match(catalog, name, i)])
    } else {
        None
    }
}

/// Whether the catalog holds the product of `line`.
pub open spec fn known(line: Line, catalog: Seq<Item>) -> bool {
    find_item(catalog, line.0) is Some
}

/// Whether the catalog holds the product of every line.
pub open spec fn all_known(lines: Seq<Line>, catalog: Seq<Item>) -> bool {
    forall|i: int| 0 <= i < lines.len() ==> known(#[trigger] lines[i], catalog)
}

/// The price of one line; nothing for a product that the catalog lacks.
pub open spec fn entry_price(line: Line, catalog: Seq<Item>, on: CalendarDate) -> int {
    match find_item(catalog, line.0) {
        Some(item) => line_price(item, line.1 as int, on),
        None => 0,
    }
}

/// The sum of the prices of all lines.
pub open spec fn cart_total(lines: Seq<Line>, catalog: Seq<Item>, on: CalendarDate) -> int
    decreases lines.len(),
{
    if lines.len() == 0 {
        0
    } else {
        cart_total(lines.drop_last(), catalog, on) + entry_price(lines.last(), catalog, on)
    }
}

/// Whether every item of the catalog has valid rules.
pub open spec fn valid_catalog(catalog: Seq<Item>) -> bool {
    forall|i: int| 0 <= i < catalog.len() ==> (#[trigger] catalog[i]).valid()
}

/// Whether no two lines name the same product.
pub open spec fn distinct_names(lines: Seq<Line>) -> bool {
    forall|i: int, j: int|
        0 <= i < j < lines.len() ==> (#[trigger] lines[i]).0 != (#[trigger] lines[j]).0
}

/// Whether some line names `name`.
pub open spec fn has_name(lines: Seq<Line>, name: Seq<char>) -> bool {
    exists|i: int| 0 <= i < lines.len() && (#[trigger] lines[i]).0 == name
}

/// The lines after `name` was given `quantity`: its line is overwritten
/// where it has one, and added at the end where it has none.
pub open spec fn upsert(lines: Seq<Line>, name: Seq<char>, quantity: u32) -> Seq<Line> {
    if has_name(lines, name) {
        let i = choose|i: int| 0 <= i < lines.len() && (#[trigger] lines[i]).0 == name;
        lines.update(i, (name, quantity))
    } else {
        lines.push((name, quantity))
    }
}

/// The lines after each of `added` was given its quantity in turn, the
/// first of them first.
pub open spec fn upsert_all(lines: Seq<Line>, added: Seq<Line>) -> Seq<Line>
    decreases added.len(),
{
    if added.len() == 0 {
        lines
    } else {
        upsert(upsert_all(lines, added.drop_last()), added.last().0, added.last().1)
    }
}

/// The mapping `map` after each of `added` was inserted in turn, the first
/// of them first.
pub open spec fn insert_all(map: Map<Seq<char>, u32>, added: Seq<Line>) -> Map<Seq<char>, u32>
    decreases added.len(),
{
    if added.len() == 0 {
        map
    } else {
        insert_all(map, added.drop_last()).insert(added.last().0, added.last().1)
    }
}

/// The mapping from product names to quantities that the lines stand for.
pub open spec fn lines_map(lines: Seq<Line>) -> Map<Seq<char>, u32> {
    Map::new(
        |name: Seq<char>| has_name(lines, name),
        |name: Seq<char>|
            lines[choose|i: int| 0 <= i < lines.len() && (#[trigger] lines[i]).0 == name].1,
    )
}

/// Among lines with distinct names, the mapping gives each line's name
/// that line's quantity.
pub proof fn lemma_map_at(lines: Seq<Line>, i: int)
    requires
        distinct_names(lines),
        0 <= i < lines.len(),
    ensures
        lines_map(lines).dom().contains(lines[i].0),
        lines_map(lines)[lines[i].0] == lines[i].1,
{
    let name = lines[i].0;
    assert(has_name(lines, name));
    let k = choose|k: int| 0 <= k < lines.len() && (#[trigger] lines[k]).0 == name;
    if k < i {
        assert(lines[k].0 != lines[i].0);
    } else if i < k {
        assert(lines[i].0 != lines[k].0);
    }
}

/// Among lines with distinct names, a line is present exactly when the
/// mapping gives its name its quantity.
pub proof fn lemma_contains_iff_mapped(lines: Seq<Line>, line: Line)
    requires
        distinct_names(lines),
    ensures
        lines.contains(line) <==> lines_map(lines).contains_pair(line.0, line.1),
{
    if lines.contains(line) {
        let i = choose|i: int| 0 <= i < lines.len() && lines[i] == line;
        lemma_map_at(lines, i);
    }
    if lines_map(lines).contains_pair(line.0, line.1) {
        assert(has_name(lines, line.0));
        let k = choose|k: int| 0 <= k < lines.len() && (#[trigger] lines[k]).0 == line.0;
        lemma_map_at(lines, k);
        assert(lines[k] == line);
    }
}

/// Giving a name a quantity is an insertion into the mapping, and keeps
/// the names distinct.
pub proof fn lemma_upsert_is_insert(lines: Seq<Line>, name: Seq<char>, quantity: u32)
    requires
        distinct_names(lines),
    ensures
        distinct_names(upsert(lines, name, quantity)),
        lines_map(upsert(lines, name, quantity)) == lines_map(lines).insert(name, quantity),
{
    let after = upsert(lines, name, quantity);
    let at = if has_name(lines, name) {
        choose|i: int| 0 <= i < lines.len() && (#[trigger] lines[i]).0 == name
    } else {
        lines.len() as int
    };
    assert(0 <= at < after.len());
    assert(after[at] == (name, quantity));
    assert forall|k: int| 0 <= k < after.len() && k != at implies #[trigger] after[k]
        == lines[k] && lines[k].0 != name by {
        if has_name(lines, name) {
            if k < at {
                assert(lines[k].0 != lines[at].0);
            } else {
                assert(lines[at].0 != lines[k].0);
            }
        }
    }
    assert forall|a: int, b: int| 0 <= a < b < after.len() implies (#[trigger] after[a]).0 != (
    #[trigger] after[b]).0 by {
        if a != at && b != at {
            assert(lines[a].0 != lines[b].0);
        }
    }
    let before_map = lines_map(lines);
    let after_map = lines_map(after);
    let wanted = before_map.insert(name, quantity);
    assert forall|n: Seq<char>| after_map.dom().contains(n) == wanted.dom().contains(n) by {
        if after_map.dom().contains(n) {
            let k = choose|k: int| 0 <= k < after.len() && (#[trigger] after[k]).0 == n;
            if k != at {
                assert(lines[k].0 == n);
                assert(has_name(lines, n));
            }
        }
        if wanted.dom().contains(n) {
            if n == name {
                assert(after[at].0 == n);
            } else {
                let k = choose|k: int| 0 <= k < lines.len() && (#[trigger] lines[k]).0 == n;
                assert(after[k].0 == n);
            }
            assert(has_name(after, n));
        }
    }
    assert forall|n: Seq<char>| after_map.dom().contains(n) implies after_map[n] == wanted[n] by {
        let k = choose|k: int| 0 <= k < after.len() && (#[trigger] after[k]).0 == n;
        lemma_map_at(after, k);
        if k != at {
            lemma_map_at(lines, k);
        }
    }
    assert(after_map =~= wanted);
}

/// Taking one line out lowers the total by that line's price.
pub proof fn lemma_total_remove(lines: Seq<Line>, i: int, catalog: Seq<Item>, on: CalendarDate)
    requires
        0 <= i < lines.len(),
    ensures
        cart_total(lines, catalog, on) == cart_total(lines.remove(i), catalog, on) + entry_price(
            lines[i],
            catalog,
            on,
        ),
    decreases lines.len(),
{
    if i == lines.len() - 1 {
        assert(lines.remove(i) =~= lines.drop_last());
    } else {
        let rest = lines.remove(i);
        assert(rest.drop_last() =~= lines.drop_last().remove(i));
        assert(rest.last() == lines.last());
        lemma_total_remove(lines.drop_last(), i, catalog, on);
    }
}

/// The total does not depend on the order of the lines: two carts that
/// hold the same lines, each as often as the other, come to the same total,
/// and the catalog knows all products of one exactly when it knows all of
/// the other.
pub proof fn law_total_order_independent(
    a: Seq<Line>,
    b: Seq<Line>,
    catalog: Seq<Item>,
    on: CalendarDate,
)
    requires
        a.to_multiset() == b.to_multiset(),
    ensures
        cart_total(a, catalog, on) == cart_total(b, catalog, on),
        all_known(a, catalog) == all_known(b, catalog),
    decreases a.len(),
{
    broadcast use vstd::seq_lib::group_to_multiset_ensures;

    a.to_multiset_ensures();
    b.to_multiset_ensures();
    assert(a.len() == b.len());
    if a.len() > 0 {
        let x = a.last();
        let front = a.drop_last();
        assert(front =~= a.remove(a.len() - 1));
        assert(a.contains(x));
        assert(b.to_multiset().count(x) > 0);
        assert(b.contains(x));
        let j = choose|j: int| 0 <= j < b.len() && b[j] == x;
        let rest = b.remove(j);
        assert(front.to_multiset() =~= a.to_multiset().remove(x));
        assert(rest.to_multiset() =~= b.to_multiset().remove(x));
        law_total_order_independent(front, rest, catalog, on);
        lemma_total_remove(b, j, catalog, on);
        if all_known(a, catalog) {
            assert(known(a[a.len() - 1], catalog));
            assert forall|i: int| 0 <= i < front.len() implies known(
                #[trigger] front[i],
                catalog,
            ) by {
                assert(front[i] == a[i]);
            }
            assert forall|i: int| 0 <= i < b.len() implies known(#[trigger] b[i], catalog) by {
                if i < j {
                    assert(rest[i] == b[i]);
                } else if i > j {
                    assert(rest[i - 1] == b[i]);
                }
            }
        }
        if all_known(b, catalog) {
            assert(known(b[j], catalog));
            assert forall|i: int| 0 <= i < rest.len() implies known(
                #[trigger] rest[i],
                catalog,
            ) by {
                if i < j {
                    assert(rest[i] == b[i]);
                } else {
                    assert(rest[i] == b[i + 1]);
                }
            }
            assert forall|i: int| 0 <= i < a.len() implies known(#[trigger] a[i], catalog) by {
                if i < front.len() {
                    assert(front[i] == a[i]);
                }
            }
        }
    }
}

/// The total is a function of the mapping alone: two carts that give the
/// same names the same quantities come to the same total, in whatever
/// order their lines were added.
pub proof fn law_total_of_mapping(
    a: Seq<Line>,
    b: Seq<Line>,
    catalog: Seq<Item>,
    on: CalendarDate,
)
    requires
        distinct_names(a),
        distinct_names(b),
        lines_map(a) == lines_map(b),
    ensures
        cart_total(a, catalog, on) == cart_total(b, catalog, on),
        all_known(a, catalog) == all_known(b, catalog),
{
    a.to_multiset_ensures();
    b.to_multiset_ensures();
    lemma_distinct_lines(a);
    lemma_distinct_lines(b);
    a.lemma_multiset_has_no_duplicates();
    b.lemma_multiset_has_no_duplicates();
    assert forall|line: Line| a.to_multiset().count(line) == b.to_multiset().count(line) by {
        lemma_contains_iff_mapped(a, line);
        lemma_contains_iff_mapped(b, line);
    }
    assert(a.to_multiset() =~= b.to_multiset());
    law_total_order_independent(a, b, catalog, on);
}

/// Lines with distinct names are distinct lines.
pub proof fn lemma_distinct_lines(lines: Seq<Line>)
    requires
        distinct_names(lines),
    ensures
        lines.no_duplicates(),
{
    assert forall|i: int, j: int| 0 <= i < lines.len() && 0 <= j < lines.len() && i != j implies
        lines[i] != lines[j] by {
        if i < j {
            assert(lines[i].0 != lines[j].0);
        } else {
            assert(lines[j].0 != lines[i].0);
        }
    }
}

/// An empty cart comes to nothing, whatever the catalog holds.
pub proof fn law_empty_total(catalog: Seq<Item>, on: CalendarDate)
    ensures
        cart_total(Seq::<Line>::empty(), catalog, on) == 0,
        all_known(Seq::<Line>::empty(), catalog),
{
}

/// Whether every item of `items` has valid rules.
pub fn catalog_is_valid(items: &[Item]) -> (r: bool)
    ensures
        r == valid_catalog(items@),
{
    let mut i: usize = 0;
    while i < items.len()
        invariant
            i <= items@.len(),
            forall|j: int| 0 <= j < i ==> (#[trigger] items@[j]).valid(),
        decreases items@.len() - i,
    {
        if !items[i].is_valid() {
            return false;
        }
        i += 1;
    }
    true
}

/// The first item of `items` named `name`, if there is one.
pub fn lookup<'a>(items: &'a [Item], name: &String) -> (r: Option<&'a Item>)
    ensures
        match r {
            Some(item) => find_item(items@, name@) == Some(*item),
            None => find_item(items@, name@) is None,
        },
{
    let mut i: usize = 0;
    while i < items.len()
        invariant
            i <= items@.len(),
            forall|j: int| 0 <= j < i ==> (#[trigger] items@[j]).name@ != name@,
        decreases items@.len() - i,
    {
        if items[i].name == *name {
            proof {
                let first = i as int;
                assert(is_first_match(items@, name@, first));
                let chosen = choose|k: int| is_first_match(items@, name@, k);
                assert(is_first_match(items@, name@, chosen));
                assert(chosen == first);
            }
            return Some(&items[i]);
        }
        i += 1;
    }
    None
}

impl View for ShoppingCart {
    type V = Map<Seq<char>, u32>;

    /// The quantity that the cart holds for each product name.
    open spec fn view(&self) -> Map<Seq<char>, u32> {
        lines_map(self.entries())
    }
}

impl ShoppingCart {
    /// The lines of the cart, in the order in which their products were
    /// first added.
    pub closed spec fn entries(&self) -> Seq<Line> {
        lines_of(self.products@)
    }

    /// No two lines name the same product.
    pub open spec fn wf(&self) -> bool {
        distinct_names(self.entries())
    }

    /// An empty cart.
    pub fn new() -> (cart: ShoppingCart)
        ensures
            cart.wf(),
            cart.entries() == Seq::<Line>::empty(),
            cart@ == Map::<Seq<char>, u32>::empty(),
    {
        let cart = ShoppingCart { products: Vec::new() };
        assert(cart.entries() =~= Seq::<Line>::empty());
        assert(cart@ =~= Map::<Seq<char>, u32>::empty());
        cart
    }

    /// Sets the quantity of `product` to `quantity`, in place of the
    /// quantity it had, if any.
    pub fn add(&mut self, product: &str, quantity: u32)
        requires
            old(self).wf(),
        ensures
            final(self).wf(),
            final(self).entries() == upsert(old(self).entries(), product@, quantity),
            final(self)@ == old(self)@.insert(product@, quantity),
    {
        let name = product.to_owned();
        let ghost before = self.entries();
        let mut i: usize = 0;
        while i < self.products.len()
            invariant
                i <= self.products@.len(),
                *self == *old(self),
                name@ == product@,
                before == self.entries(),
                distinct_names(before),
                forall|j: int| 0 <= j < i ==> (#[trigger] before[j]).0 != name@,
            decreases self.products@.len() - i,
        {
            if self.products[i].product == name {
                self.products.set(i, CartEntry { product: name, quantity });
                proof {
                    lemma_upsert_is_insert(before, product@, quantity);
                    let found = i as int;
                    assert(before[found].0 == product@);
                    assert(has_name(before, product@));
                    let chosen = choose|k: int|
                        0 <= k < before.len() && (#[trigger] before[k]).0 == product@;
                    assert(chosen == found);
                    assert(self.entries() =~= before.update(found, (product@, quantity)));
                }
                return ;
            }
            proof {
                assert(before[i as int].0 != name@);
            }
            i += 1;
        }
        self.products.push(CartEntry { product: name, quantity });
        proof {
            lemma_upsert_is_insert(before, product@, quantity);
            assert(!has_name(before, product@));
            assert(self.entries() =~= before.push((product@, quantity)));
        }
    }

    /// Removes every line.
    pub fn clear(&mut self)
        ensures
            final(self).wf(),
            final(self).entries() == Seq::<Line>::empty(),
            final(self)@ == Map::<Seq<char>, u32>::empty(),
    {
        self.products.clear();
        assert(self.entries() =~= Seq::<Line>::empty());
        assert(self@ =~= Map::<Seq<char>, u32>::empty());
    }

    /// Replaces the lines of the cart by `lines`, added in turn: where a
    /// name comes twice, its last quantity stays.
    pub fn load(&mut self, lines: &[CartEntry])
        ensures
            final(self).wf(),
            final(self).entries() == upsert_all(Seq::<Line>::empty(), lines_of(lines@)),
            final(self)@ == insert_all(Map::<Seq<char>, u32>::empty(), lines_of(lines@)),
    {
        self.clear();
        let ghost added = lines_of(lines@);
        let mut i: usize = 0;
        while i < lines.len()
            invariant
                i <= lines@.len(),
                added == lines_of(lines@),
                self.wf(),
                self.entries() == upsert_all(Seq::<Line>::empty(), added.take(i as int)),
                self@ == insert_all(Map::<Seq<char>, u32>::empty(), added.take(i as int)),
            decreases lines@.len() - i,
        {
            let line = &lines[i];
            self.add(line.product.as_str(), line.quantity);
            proof {
                let next = added.take(i as int + 1);
                assert(next.drop_last() =~= added.take(i as int));
                assert(next.last() == (line.product@, line.quantity));
            }
            i += 1;
        }
        proof {
            assert(added.take(i as int) =~= added);
        }
    }

    /// The sum of the prices of all lines on the date `date`, each product
    /// priced by the first item of `items` that has its name. Fails where
    /// a line names a product that `items` does not hold.
    pub fn total(&self, items: &[Item], date: &CalendarDate) -> (r: Result<u128, PricingError>)
        requires
            valid_catalog(items@),
        ensures
            r is Ok == all_known(self.entries(), items@),
            r matches Ok(sum) ==> sum == cart_total(self.entries(), items@, *date),
            r matches Err(e) ==> e == PricingError::UnknownProduct,
            self.entries().len() == 0 ==> r == Ok::<u128, PricingError>(0),
    {
        let ghost lines = self.entries();
        let mut sum: u128 = 0;
        let mut k: usize = 0;
        while k < self.products.len()
            invariant
                k <= self.products@.len(),
                lines == self.entries(),
                valid_catalog(items@),
                all_known(lines.take(k as int), items@),
                sum == cart_total(lines.take(k as int), items@, *date),
                sum <= k * max_line_price(),
            decreases self.products@.len() - k,
        {
            let entry = &self.products[k];
            assert(lines[k as int] == (entry.product@, entry.quantity));
            match lookup(items, &entry.product) {
                None => {
                    assert(!known(lines[k as int], items@));
                    return Err(PricingError::UnknownProduct);
                },
                Some(item) => {
                    proof {
                        let at = choose|i: int| is_first_match(items@, entry.product@, i);
                        assert(items@[at].valid());
                    }
                    let line = price_for(item, entry.quantity, date);
                    proof {
                        let next = lines.take(k as int + 1);
                        assert(next.drop_last() =~= lines.take(k as int));
                        assert(next.last() == lines[k as int]);
                        assert((k + 1) * max_line_price() <= u64::MAX * max_line_price())
                            by (nonlinear_arith)
                            requires
                                0 <= k + 1 <= u64::MAX,
                                max_line_price() >= 0,
                        ;
                        assert(u64::MAX * max_line_price() <= u128::MAX) by (nonlinear_arith)
                            requires
                                max_line_price() == 0xffff_ffff * 0xffff_ffff,
                        ;
                        assert(k * max_line_price() + max_line_price() == (k + 1)
                            * max_line_price()) by (nonlinear_arith);
                        assert forall|i: int| 0 <= i < next.len() implies known(
                            #[trigger] next[i],
                            items@,
                        ) by {
                            if i < k {
                                assert(lines.take(k as int)[i] == next[i]);
                            }
                        }
                    }
                    sum = sum + line as u128;
                },
            }
            k += 1;
        }
        proof {
            assert(lines.take(k as int) =~= lines);
        }
        Ok(sum)
    }
}

} // verus!
