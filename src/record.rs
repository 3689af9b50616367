use vstd::prelude::*;

use crate::date::Date;
use crate::error::ScrapeError;
use crate::text::{
    parse_price, parse_quantity, price_value, product_id, quantity_value, regex_first_group,
    PRODUCT_LINK_PATTERN,
};

verus! {

/// One purchased unit: a line item bought in quantity `n` gives `n` equal records.
#[derive(Clone, Debug)]
pub struct Log {
    /// The ten-character product identifier.
    pub hash: String,
    pub name: String,
    /// The price in the smallest currency unit.
    pub price: i32,
    pub purchased_at: Date,
}

/// A purchase record as plain values.
pub struct LogView {
    pub hash: Seq<char>,
    pub name: Seq<char>,
    pub price: i32,
    pub purchased_at: Date,
}

impl View for Log {
    type V = LogView;

    open spec fn view(&self) -> LogView {
        LogView {
            hash: self.hash@,
            name: self.name@,
            price: self.price,
            purchased_at: self.purchased_at,
        }
    }
}

/// The records of a list, as plain values.
pub open spec fn log_views(logs: Seq<Log>) -> Seq<LogView> {
    logs.map_values(|l: Log| l@)
}

/// One line item of an order, as the page shows it.
pub struct LineItem {
    /// The target of the product link.
    pub href: String,
    /// The visible item name.
    pub name: String,
    /// The visible price (`￥3,299`).
    pub price_text: String,
    /// The quantity indicator, where the page shows one.
    pub quantity_text: Option<String>,
}

/// A line item as plain values.
pub struct LineItemView {
    pub href: Seq<char>,
    pub name: Seq<char>,
    pub price_text: Seq<char>,
    pub quantity_text: Option<Seq<char>>,
}

impl View for LineItem {
    type V = LineItemView;

    open spec fn view(&self) -> LineItemView {
        LineItemView {
            href: self.href@,
            name: self.name@,
            price_text: self.price_text@,
            quantity_text: match self.quantity_text {
                Some(t) => Some(t@),
                None => None,
            },
        }
    }
}

/// The records that a line item bought on `date` stands for: one per unit, all equal.
/// The product link is read first, then the price, then the quantity; the first that
/// does not parse is the error.
pub open spec fn item_records(item: LineItemView, date: Date) -> Result<Seq<LogView>, ScrapeError> {
    match regex_first_group(PRODUCT_LINK_PATTERN@, item.href) {
        None => Err(ScrapeError::Parse(crate::error::Field::ProductId)),
        Some(id) => match price_value(item.price_text) {
            None => Err(ScrapeError::Parse(crate::error::Field::Price)),
            Some(p) => match quantity_value(item.quantity_text) {
                None => Err(ScrapeError::Parse(crate::error::Field::Quantity)),
                Some(q) => Ok(
                    Seq::new(
                        q as nat,
                        |k: int| LogView { hash: id, name: item.name, price: p, purchased_at: date },
                    ),
                ),
            },
        },
    }
}

/// The records of an order's line items bought on `date`, item after item; the first
/// item that does not parse makes the error.
pub open spec fn group_records(items: Seq<LineItemView>, date: Date) -> Result<Seq<LogView>, ScrapeError>
    decreases items.len(),
{
    if items.len() == 0 {
        Ok(Seq::empty())
    } else {
        match group_records(items.drop_last(), date) {
            Err(e) => Err(e),
            Ok(rs) => match item_records(items.last(), date) {
                Err(e) => Err(e),
                Ok(more) => Ok(rs + more),
            },
        }
    }
}

/// The line items of a list, as plain values.
pub open spec fn item_views(items: Seq<LineItem>) -> Seq<LineItemView> {
    items.map_values(|i: LineItem| i@)
}

/// Once an item fails to parse, no later item changes the outcome.
pub proof fn lemma_error_stays(items: Seq<LineItemView>, i: int, date: Date)
    requires
        0 <= i <= items.len(),
        group_records(items.subrange(0, i), date) is Err,
    ensures
        group_records(items, date) == group_records(items.subrange(0, i), date),
    decreases items.len() - i,
{
    if i < items.len() {
        assert(items.subrange(0, i + 1).drop_last() =~= items.subrange(0, i));
        lemma_error_stays(items, i + 1, date);
    } else {
        assert(items.subrange(0, i) =~= items);
    }
}

/// Every record of an order bought on `date` carries that date.
pub proof fn lemma_group_dates(items: Seq<LineItemView>, date: Date)
    ensures
        group_records(items, date) matches Ok(rs) ==> forall|i: int|
            0 <= i < rs.len() ==> (#[trigger] rs[i]).purchased_at == date,
    decreases items.len(),
{
    if items.len() > 0 {
        lemma_group_dates(items.drop_last(), date);
    }
}

/// Reads the records that one line item bought on `date` stands for.
pub fn records_of_item(item: &LineItem, date: Date) -> (r: Result<Vec<Log>, ScrapeError>)
    ensures
        match item_records(item@, date) {
            Ok(rs) => r matches Ok(v) && log_views(v@) == rs,
            Err(e) => r == Err::<Vec<Log>, ScrapeError>(e),
        },
{
    let hash = product_id(item.href.as_str())?;
    let price = parse_price(item.price_text.as_str())?;
    let quantity = match &item.quantity_text {
        Some(t) => parse_quantity(Some(t.as_str())),
        None => parse_quantity(None),
    }?;
    let ghost unit = LogView { hash: hash@, name: item.name@, price, purchased_at: date };
    let mut out: Vec<Log> = Vec::new();
    let mut k: i32 = 0;
    while k < quantity
        invariant
            0 <= k <= quantity,
            unit == (LogView { hash: hash@, name: item.name@, price, purchased_at: date }),
            log_views(out@) =~= Seq::new(k as nat, |j: int| unit),
        decreases quantity - k,
    {
        let ghost prev = out@;
        let h = hash.clone();
        let nm = item.name.clone();
        let copy = Log { hash: h, name: nm, price, purchased_at: date };
        proof {
            assert(h == hash);
            assert(nm == item.name);
            assert(copy@ == unit);
        }
        out.push(copy);
        proof {
            assert(out@ == prev.push(copy));
            assert(log_views(out@) =~= log_views(prev).push(unit));
        }
        k = k + 1;
    }
    Ok(out)
}

/// Reads the records of an order's line items bought on `date`, in the order of the items.
pub fn records_of_group(items: &Vec<LineItem>, date: Date) -> (r: Result<Vec<Log>, ScrapeError>)
    ensures
        match group_records(item_views(items@), date) {
            Ok(rs) => r matches Ok(v) && log_views(v@) == rs,
            Err(e) => r == Err::<Vec<Log>, ScrapeError>(e),
        },
{
    let mut out: Vec<Log> = Vec::new();
    let mut i: usize = 0;
    proof {
        assert(item_views(items@).subrange(0, 0) =~= Seq::<LineItemView>::empty());
        assert(log_views(out@) =~= Seq::<LogView>::empty());
    }
    while i < items.len()
        invariant
            0 <= i <= items@.len(),
            group_records(item_views(items@).subrange(0, i as int), date) == Ok::<
                Seq<LogView>,
                ScrapeError,
            >(log_views(out@)),
        decreases items@.len() - i,
    {
        proof {
            let vs = item_views(items@);
            assert(vs.subrange(0, i as int + 1).drop_last() =~= vs.subrange(0, i as int));
            assert(vs.subrange(0, i as int + 1).last() == items@[i as int]@);
        }
        let mut more = match records_of_item(&items[i], date) {
            Ok(more) => more,
            Err(e) => {
                proof {
                    lemma_error_stays(item_views(items@), i as int + 1, date);
                }
                return Err(e);
            },
        };
        let ghost before = out@;
        let ghost added = more@;
        out.append(&mut more);
        proof {
            assert(log_views(out@) =~= log_views(before) + log_views(added));
        }
        i = i + 1;
    }
    proof {
        assert(item_views(items@).subrange(0, items@.len() as int) =~= item_views(items@));
    }
    Ok(out)
}

/// A line item bought in quantity `n` gives exactly `n` records, all with its product
/// identifier, name, price and the purchase date.
pub proof fn lemma_quantity_expansion(item: LineItemView, date: Date, n: i32)
    requires
        quantity_value(item.quantity_text) == Some(n),
        item_records(item, date) is Ok,
    ensures
        item_records(item, date) matches Ok(rs) && rs.len() == n && forall|i: int|
            0 <= i < rs.len() ==> {
                &&& regex_first_group(PRODUCT_LINK_PATTERN@, item.href) == Some(
                    #[trigger] rs[i].hash,
                )
                &&& rs[i].name == item.name
                &&& price_value(item.price_text) == Some(rs[i].price)
                &&& rs[i].purchased_at == date
                &&& rs[i] == rs[0]
            },
{
}

} // verus!
