use amazon_history::{
    Date, DateRange, Event, Extraction, Field, LineItem, Log, NextControl, ScrapeError, Step,
    LISTING_DATE_FORMAT,
};

struct Item {
    id: &'static str,
    name: &'static str,
    price: &'static str,
    quantity: Option<&'static str>,
}

struct Group {
    date: &'static str,
    items: Vec<Item>,
}

struct Page {
    groups: Vec<Group>,
    next: NextControl,
}

/// A listing held in memory, one list of pages per year.
struct Listing {
    years: Vec<(i32, Vec<Page>)>,
}

fn item(id: &'static str, price: &'static str) -> Item {
    Item { id, name: "item", price, quantity: None }
}

fn group(date: &'static str, items: Vec<Item>) -> Group {
    Group { date, items }
}

fn line_item(i: &Item) -> LineItem {
    let href = if i.id.len() == 10 {
        format!("https://www.amazon.co.jp/gp/product/{}/ref=ppx_yo_dt_b_asin_title_o00_s00", i.id)
    } else {
        format!("https://www.amazon.co.jp/dp/{}", i.id)
    };
    LineItem {
        href,
        name: i.name.to_string(),
        price_text: i.price.to_string(),
        quantity_text: i.quantity.map(|q| q.to_string()),
    }
}

impl Listing {
    fn pages(&self, year: i32) -> &Vec<Page> {
        &self.years.iter().find(|(y, _)| *y == year).expect("year is listed").1
    }

    fn page_event(&self, year: i32, page: usize) -> Event {
        let p = &self.pages(year)[page];
        Event::Page { groups: p.groups.len(), next: p.next }
    }
}

/// Performs the steps that the extraction asks for against the listing; returns the
/// outcome and the pages opened, as (year, page index).
fn drive(range: DateRange, listing: &Listing) -> (Result<Vec<Log>, ScrapeError>, Vec<(i32, usize)>) {
    let (mut machine, mut step) = Extraction::new(range, LISTING_DATE_FORMAT.to_string());
    let mut year = 0;
    let mut page = 0;
    let mut opened = Vec::new();
    for _ in 0..10_000 {
        let event = match step {
            Step::SignIn | Step::OpenHome => Event::Done,
            Step::OpenYear(y) => {
                year = y;
                page = 0;
                opened.push((year, page));
                listing.page_event(year, page)
            }
            Step::TurnPage => {
                page += 1;
                opened.push((year, page));
                listing.page_event(year, page)
            }
            Step::ReadDate(g) => {
                Event::DateText(listing.pages(year)[page].groups[g].date.to_string())
            }
            Step::ReadItems(g) => Event::Items(
                listing.pages(year)[page].groups[g].items.iter().map(line_item).collect(),
            ),
            Step::Finish => return (Ok(machine.into_records().expect("finished")), opened),
        };
        assert!(machine.accepts(&event));
        match machine.advance(event) {
            Ok(s) => step = s,
            Err(e) => {
                assert!(machine.into_records().is_none());
                return (Err(e), opened);
            }
        }
    }
    panic!("the extraction did not finish");
}

fn two_page_listing() -> Listing {
    Listing {
        years: vec![(
            2021,
            vec![
                Page {
                    groups: vec![
                        group("2021年12月3日", vec![item("B000000001", "￥100")]),
                        group("2021年9月18日", vec![item("B000000002", "￥3,299")]),
                    ],
                    next: NextControl::Enabled,
                },
                Page {
                    groups: vec![
                        group("2021年8月17日", vec![item("B000000003", "￥500")]),
                        group("2021年8月16日", vec![item("B000000004", "￥700")]),
                        group("2021年8月1日", vec![item("B000000005", "￥900")]),
                    ],
                    next: NextControl::Enabled,
                },
                Page {
                    groups: vec![group("2021年7月1日", vec![item("B000000006", "￥1")])],
                    next: NextControl::Disabled,
                },
            ],
        )],
    }
}

#[test]
fn window_across_a_page_boundary() {
    let range = DateRange::parse("2021-08-17", "2021-09-18").unwrap();
    let (result, opened) = drive(range, &two_page_listing());
    let logs = result.unwrap();
    assert_eq!(logs.len(), 2);
    assert_eq!(logs[0].hash, "B000000002");
    assert_eq!(logs[0].price, 3299);
    assert_eq!(logs[1].hash, "B000000003");
    assert_eq!(opened, vec![(2021, 0), (2021, 1)]);
}

#[test]
fn records_stay_within_the_window() {
    let range = DateRange::parse("2021-08-17", "2021-09-18").unwrap();
    let (result, _) = drive(range, &two_page_listing());
    for log in result.unwrap() {
        assert!(range.includes(&log.purchased_at));
    }
}

#[test]
fn rerun_gives_the_same_records() {
    let range = DateRange::parse("2021-08-01", "2021-12-31").unwrap();
    let listing = two_page_listing();
    let first = drive(range, &listing).0.unwrap();
    let second = drive(range, &listing).0.unwrap();
    assert_eq!(first.len(), 5);
    let key = |l: &Log| (l.hash.clone(), l.name.clone(), l.price, l.purchased_at);
    assert_eq!(first.iter().map(key).collect::<Vec<_>>(), second.iter().map(key).collect::<Vec<_>>());
}

#[test]
fn single_day_gives_one_gift_record() {
    let listing = Listing {
        years: vec![(
            2020,
            vec![Page {
                groups: vec![
                    group("2020年7月20日", vec![item("B000000010", "￥200")]),
                    group("2020年7月17日", vec![item("B088KDK163", "￥3,299")]),
                    group("2020年7月10日", vec![item("B000000011", "￥300")]),
                ],
                next: NextControl::Absent,
            }],
        )],
    };
    let range = DateRange::parse("2020-07-17", "2020-07-17").unwrap();
    let logs = drive(range, &listing).0.unwrap();
    assert_eq!(logs.len(), 1);
    assert_eq!(logs[0].hash, "B088KDK163");
    assert_eq!(logs[0].price, 3299);
    assert_eq!(logs[0].purchased_at, Date { year: 2020, month: 7, day: 17 });
}

#[test]
fn quantity_two_among_other_items() {
    let listing = Listing {
        years: vec![(
            2021,
            vec![Page {
                groups: vec![
                    group(
                        "2021年10月19日",
                        vec![
                            Item { id: "B000000020", name: "double", price: "￥150", quantity: Some("2") },
                            item("B000000021", "￥250"),
                        ],
                    ),
                    group("2021年10月19日", vec![item("B000000022", "￥350")]),
                    group("2021年10月18日", vec![item("B000000023", "￥450")]),
                ],
                next: NextControl::Disabled,
            }],
        )],
    };
    let range = DateRange::parse("2021-10-19", "2021-10-19").unwrap();
    let logs = drive(range, &listing).0.unwrap();
    assert_eq!(logs.len(), 4);
    assert_eq!(logs.iter().filter(|l| l.hash == "B000000020").count(), 2);
    assert_eq!(logs[0].name, "double");
    assert_eq!(logs[1].name, "double");
}

#[test]
fn malformed_link_fails_the_extraction() {
    let listing = Listing {
        years: vec![(
            2021,
            vec![Page {
                groups: vec![
                    group("2021年10月20日", vec![item("B000000030", "￥100")]),
                    group("2021年10月19日", vec![item("B000000031", "￥100"), item("B0MALFORMED", "￥1")]),
                ],
                next: NextControl::Absent,
            }],
        )],
    };
    let range = DateRange::parse("2021-10-01", "2021-10-31").unwrap();
    let (result, _) = drive(range, &listing);
    assert_eq!(result.err(), Some(ScrapeError::Parse(Field::ProductId)));
}

#[test]
fn window_across_a_year_boundary() {
    let listing = Listing {
        years: vec![
            (
                2021,
                vec![Page {
                    groups: vec![
                        group("2021年1月5日", vec![item("B000000040", "￥1")]),
                        group("2021年1月2日", vec![item("B000000041", "￥2")]),
                        group("2021年1月1日", vec![item("B000000042", "￥3")]),
                    ],
                    next: NextControl::Disabled,
                }],
            ),
            (
                2020,
                vec![Page {
                    groups: vec![
                        group("2020年12月31日", vec![item("B000000043", "￥4")]),
                        group("2020年12月29日", vec![item("B000000044", "￥5")]),
                    ],
                    next: NextControl::Enabled,
                }],
            ),
        ],
    };
    let range = DateRange::parse("2020-12-30", "2021-01-02").unwrap();
    let (result, opened) = drive(range, &listing);
    let hashes: Vec<String> = result.unwrap().into_iter().map(|l| l.hash).collect();
    assert_eq!(hashes, vec!["B000000041", "B000000042", "B000000043"]);
    assert_eq!(opened, vec![(2021, 0), (2020, 0)]);
}

#[test]
fn empty_listing_gives_no_records() {
    let listing = Listing {
        years: vec![(2019, vec![Page { groups: vec![], next: NextControl::Absent }])],
    };
    let range = DateRange::parse("2019-01-01", "2019-12-31").unwrap();
    assert_eq!(drive(range, &listing).0.unwrap().len(), 0);
}

#[test]
fn unreadable_purchase_date_fails() {
    let listing = Listing {
        years: vec![(
            2019,
            vec![Page { groups: vec![group("2019/05/01", vec![])], next: NextControl::Absent }],
        )],
    };
    let range = DateRange::parse("2019-01-01", "2019-12-31").unwrap();
    assert_eq!(drive(range, &listing).0.err(), Some(ScrapeError::Parse(Field::Date)));
}

#[test]
fn bad_price_fails() {
    let listing = Listing {
        years: vec![(
            2019,
            vec![Page {
                groups: vec![group("2019年5月1日", vec![item("B000000050", "無料")])],
                next: NextControl::Absent,
            }],
        )],
    };
    let range = DateRange::parse("2019-01-01", "2019-12-31").unwrap();
    assert_eq!(drive(range, &listing).0.err(), Some(ScrapeError::Parse(Field::Price)));
}

#[test]
fn steps_follow_the_walk() {
    let range = DateRange::parse("2021-08-17", "2021-09-18").unwrap();
    let (mut m, step) = Extraction::new(range, LISTING_DATE_FORMAT.to_string());
    assert_eq!(step, Step::SignIn);
    assert!(!m.accepts(&Event::DateText("x".to_string())));
    assert_eq!(m.advance(Event::Done), Ok(Step::OpenHome));
    assert_eq!(m.advance(Event::Done), Ok(Step::OpenYear(2021)));
    assert_eq!(m.advance(Event::Page { groups: 1, next: NextControl::Disabled }), Ok(Step::ReadDate(0)));
    assert_eq!(m.advance(Event::DateText("2021年9月1日".to_string())), Ok(Step::ReadItems(0)));
    assert_eq!(m.advance(Event::Items(vec![])), Ok(Step::Finish));
    assert_eq!(m.into_records().map(|v| v.len()), Some(0));
}
