use crate::money::dec_digits;
use crate::money::money_chars;
use crate::money::money_string;
use crate::money::u64_to_string;
use crate::payment::method_label;
use crate::payment::method_name;
use crate::payment::PaymentMethod;
use crate::product::Product;
use chrono::Datelike;
use chrono::Timelike;
use vstd::prelude::*;
use vstd::string::StrSliceExecFns;
use vstd::string::StringExecFns;

verus! {

/// A local calendar timestamp, split into plain fields.
#[derive(PartialEq, Eq, Structural, Clone, Copy, Debug)]
pub struct Timestamp {
    pub year: i32,
    pub month: u32,
    pub day: u32,
    pub hour: u32,
    pub minute: u32,
    pub second: u32,
}

impl Timestamp {
    /// The field ranges the clock guarantees.
    pub open spec fn wf(self) -> bool {
        &&& 1 <= self.month <= 12
        &&& 1 <= self.day <= 31
        &&& self.hour < 24
        &&& self.minute < 60
        &&& self.second < 60
    }
}

/// Relies on chrono's `Local::now` and its `Datelike` / `Timelike`
/// accessors: month runs from 1 to 12, day of month from 1 to 31, hour
/// from 0 to 23, minute and second from 0 to 59.
#[verifier::external_body]
fn now_timestamp() -> (ts: Timestamp)
    ensures
        ts.wf(),
{
    let now = chrono::Local::now();
    Timestamp {
        year: now.year(),
        month: now.month(),
        day: now.day(),
        hour: now.hour(),
        minute: now.minute(),
        second: now.second(),
    }
}

/// `n` copies of the character `c`.
pub open spec fn repeat_char(c: char, n: int) -> Seq<char>
    decreases n,
{
    if n <= 0 {
        Seq::empty()
    } else {
        repeat_char(c, n - 1).push(c)
    }
}

/// `s` filled on the left with `c` up to width `w`; a longer `s` stands
/// as it is.
pub open spec fn pad_left(s: Seq<char>, w: int, c: char) -> Seq<char> {
    if s.len() >= w {
        s
    } else {
        repeat_char(c, w - s.len()) + s
    }
}

/// `s` filled on the right with spaces up to width `w`; a longer `s`
/// stands as it is.
pub open spec fn pad_right(s: Seq<char>, w: int) -> Seq<char> {
    if s.len() >= w {
        s
    } else {
        s + repeat_char(' ', w - s.len())
    }
}

/// A number filled with zeros on the left to width two.
pub open spec fn pad2(n: int) -> Seq<char> {
    pad_left(dec_digits(n), 2, '0')
}

/// A year filled with zeros to width four, with a sign for years
/// before the common era.
pub open spec fn year_chars(y: int) -> Seq<char> {
    if y >= 0 {
        pad_left(dec_digits(y), 4, '0')
    } else {
        seq!['-'] + pad_left(dec_digits(-y), 4, '0')
    }
}

/// The timestamp as the receipt's header shows it.
pub open spec fn header_time_chars(ts: Timestamp) -> Seq<char> {
    year_chars(ts.year as int) + seq!['-'] + pad2(ts.month as int) + seq!['-'] + pad2(ts.day as int)
        + seq![' '] + pad2(ts.hour as int) + seq![':'] + pad2(ts.minute as int) + seq![':'] + pad2(
        ts.second as int,
    )
}

/// The receipt's file name for a timestamp.
pub open spec fn filename_chars(ts: Timestamp) -> Seq<char> {
    "receipt_"@ + year_chars(ts.year as int) + pad2(ts.month as int) + pad2(ts.day as int)
        + seq!['_'] + pad2(ts.hour as int) + pad2(ts.minute as int) + pad2(ts.second as int)
        + ".txt"@
}

/// One line of the receipt: the name filled to twenty places, a space,
/// and the price right-aligned in fifteen places.
pub open spec fn product_line_chars(p: Product) -> Seq<char> {
    pad_right(p.name@, 20) + seq![' '] + pad_left(money_chars(p.price as int), 15, ' ')
        + seq!['\n']
}

/// The product lines of the receipt, one per catalog entry, in order.
pub open spec fn lines_of(products: Seq<Product>) -> Seq<char>
    decreases products.len(),
{
    if products.len() == 0 {
        Seq::empty()
    } else {
        lines_of(products.drop_last()) + product_line_chars(products.last())
    }
}

/// The whole receipt text: header with the timestamp, a separator, one
/// line per product, a separator, the total line, and the payment
/// method when one was used.
pub open spec fn receipt_chars(
    products: Seq<Product>,
    total: u64,
    method: Option<PaymentMethod>,
    ts: Timestamp,
) -> Seq<char> {
    "Receipt - "@ + header_time_chars(ts) + seq!['\n'] + repeat_char('-', 40) + seq!['\n']
        + lines_of(products) + repeat_char('-', 40) + seq!['\n'] + pad_right("TOTAL"@, 20)
        + seq![' '] + pad_left(money_chars(total as int), 15, ' ') + seq!['\n'] + match method {
        Some(m) => "Payment Method: "@ + method_label(m) + seq!['\n'],
        None => Seq::empty(),
    }
}

/// `count` copies of the one-character string `part`.
fn fill(part: &str, count: usize) -> (r: String)
    requires
        part@.len() == 1,
    ensures
        r@ == repeat_char(part@[0], count as int),
{
    let mut out = String::new();
    let mut i: usize = 0;
    while i < count
        invariant
            i <= count,
            part@.len() == 1,
            out@ == repeat_char(part@[0], i as int),
        decreases count - i,
    {
        out.append(part);
        i = i + 1;
        proof {
            assert(out@ =~= repeat_char(part@[0], i as int));
        }
    }
    out
}

/// Renders `n` filled with zeros on the left to width `w`.
fn zero_padded(n: u64, w: usize) -> (r: String)
    ensures
        r@ == pad_left(dec_digits(n as int), w as int, '0'),
{
    let s = u64_to_string(n);
    let len = s.as_str().unicode_len();
    if len >= w {
        s
    } else {
        proof {
            reveal_strlit("0");
        }
        let mut out = fill("0", w - len);
        out.append(s.as_str());
        out
    }
}

/// Renders a year filled with zeros to width four.
fn year_string(y: i32) -> (r: String)
    ensures
        r@ == year_chars(y as int),
{
    if y >= 0 {
        zero_padded(y as u64, 4)
    } else {
        let mag = (-(y as i64)) as u64;
        proof {
            reveal_strlit("-");
        }
        let mut out = "-".to_owned();
        out.append(zero_padded(mag, 4).as_str());
        proof {
            assert(out@ =~= year_chars(y as int));
        }
        out
    }
}

/// Renders the header form of a timestamp.
fn header_time_string(ts: Timestamp) -> (r: String)
    ensures
        r@ == header_time_chars(ts),
{
    let mut out = year_string(ts.year);
    out.append("-");
    out.append(zero_padded(ts.month as u64, 2).as_str());
    out.append("-");
    out.append(zero_padded(ts.day as u64, 2).as_str());
    out.append(" ");
    out.append(zero_padded(ts.hour as u64, 2).as_str());
    out.append(":");
    out.append(zero_padded(ts.minute as u64, 2).as_str());
    out.append(":");
    out.append(zero_padded(ts.second as u64, 2).as_str());
    proof {
        reveal_strlit("-");
        reveal_strlit(" ");
        reveal_strlit(":");
        assert(out@ =~= header_time_chars(ts));
    }
    out
}

/// Renders the receipt's file name for a timestamp.
pub fn receipt_filename(ts: Timestamp) -> (r: String)
    ensures
        r@ == filename_chars(ts),
{
    let mut out = "receipt_".to_owned();
    out.append(year_string(ts.year).as_str());
    out.append(zero_padded(ts.month as u64, 2).as_str());
    out.append(zero_padded(ts.day as u64, 2).as_str());
    out.append("_");
    out.append(zero_padded(ts.hour as u64, 2).as_str());
    out.append(zero_padded(ts.minute as u64, 2).as_str());
    out.append(zero_padded(ts.second as u64, 2).as_str());
    out.append(".txt");
    proof {
        reveal_strlit("receipt_");
        reveal_strlit("_");
        reveal_strlit(".txt");
        assert(out@ =~= filename_chars(ts));
    }
    out
}

/// Renders the name filled with spaces on the right to width `w`.
fn pad_right_str(s: &str, w: usize) -> (r: String)
    ensures
        r@ == pad_right(s@, w as int),
{
    let n = s.unicode_len();
    let mut out = s.to_owned();
    if n < w {
        proof {
            reveal_strlit(" ");
        }
        let f = fill(" ", w - n);
        out.append(f.as_str());
    }
    out
}

/// Renders a cent amount right-aligned in `w` places.
fn pad_left_money(cents: u64, w: usize) -> (r: String)
    ensures
        r@ == pad_left(money_chars(cents as int), w as int, ' '),
{
    let m = money_string(cents);
    let n = m.as_str().unicode_len();
    if n >= w {
        m
    } else {
        proof {
            reveal_strlit(" ");
        }
        let mut out = fill(" ", w - n);
        out.append(m.as_str());
        out
    }
}

/// Renders one product line of the receipt.
fn product_line_string(p: &Product) -> (r: String)
    ensures
        r@ == product_line_chars(*p),
{
    let mut out = pad_right_str(p.name.as_str(), 20);
    out.append(" ");
    out.append(pad_left_money(p.price, 15).as_str());
    out.append("\n");
    proof {
        reveal_strlit(" ");
        reveal_strlit("\n");
        assert(out@ =~= product_line_chars(*p));
    }
    out
}

/// Renders the whole receipt text for a given timestamp.
pub fn format_receipt(
    products: &Vec<Product>,
    total: u64,
    method: Option<PaymentMethod>,
    ts: Timestamp,
) -> (r: String)
    ensures
        r@ == receipt_chars(products@, total, method, ts),
{
    let mut out = "Receipt - ".to_owned();
    out.append(header_time_string(ts).as_str());
    out.append("\n");
    proof {
        reveal_strlit("-");
    }
    let sep = fill("-", 40);
    out.append(sep.as_str());
    out.append("\n");
    proof {
        reveal_strlit("Receipt - ");
        reveal_strlit("\n");
        reveal_strlit("-");
        assert(products@.subrange(0, 0) =~= Seq::<Product>::empty());
        assert(out@ =~= "Receipt - "@ + header_time_chars(ts) + seq!['\n'] + repeat_char('-', 40)
            + seq!['\n'] + lines_of(products@.subrange(0, 0)));
    }
    let mut i: usize = 0;
    while i < products.len()
        invariant
            i <= products@.len(),
            out@ == "Receipt - "@ + header_time_chars(ts) + seq!['\n'] + repeat_char('-', 40)
                + seq!['\n'] + lines_of(products@.subrange(0, i as int)),
        decreases products@.len() - i,
    {
        let line = product_line_string(&products[i]);
        out.append(line.as_str());
        i = i + 1;
        proof {
            assert(products@.subrange(0, i as int).drop_last() =~= products@.subrange(
                0,
                i - 1,
            ));
            assert(products@.subrange(0, i as int).last() == products@[i - 1]);
            assert(out@ =~= "Receipt - "@ + header_time_chars(ts) + seq!['\n'] + repeat_char(
                '-',
                40,
            ) + seq!['\n'] + lines_of(products@.subrange(0, i as int)));
        }
    }
    proof {
        assert(products@.subrange(0, products@.len() as int) =~= products@);
    }
    out.append(sep.as_str());
    out.append("\n");
    out.append(pad_right_str("TOTAL", 20).as_str());
    out.append(" ");
    out.append(pad_left_money(total, 15).as_str());
    out.append("\n");
    match method {
        Some(m) => {
            out.append("Payment Method: ");
            out.append(method_name(m));
            out.append("\n");
        },
        None => {},
    }
    proof {
        reveal_strlit("TOTAL");
        reveal_strlit("Payment Method: ");
        reveal_strlit(" ");
        reveal_strlit("\n");
        assert(out@ =~= receipt_chars(products@, total, method, ts));
    }
    out
}

/// A rendered receipt: the file name and the text to store under it.
pub struct Receipt {
    pub filename: String,
    pub contents: String,
}

/// Renders the receipt for the present moment of the local clock. The
/// text and the name follow `receipt_chars` and `filename_chars` for
/// one well-formed timestamp, whatever the clock read.
pub fn make_receipt(products: &Vec<Product>, total: u64, method: Option<PaymentMethod>) -> (r:
    Receipt)
    ensures
        exists|ts: Timestamp|
            #[trigger] ts.wf() && r.filename@ == filename_chars(ts) && r.contents@
                == receipt_chars(products@, total, method, ts),
{
    let ts = now_timestamp();
    let filename = receipt_filename(ts);
    let contents = format_receipt(products, total, method, ts);
    let r = Receipt { filename, contents };
    proof {
        assert(ts.wf() && r.filename@ == filename_chars(ts) && r.contents@ == receipt_chars(
            products@,
            total,
            method,
            ts,
        ));
    }
    r
}

} // verus!
