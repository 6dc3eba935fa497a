//! One wallpaper change: which category, which address to ask, and which
//! file to save the answer in.

use crate::amount::{lemma_number_concat, pow10};
use crate::text::{
    all_digits, append_decimal, append_two_digits, decimal, digit_char, digit_value,
    four_digits_or_more, is_digit, number, two_digits,
};
use chrono::{Datelike, Timelike};
use rand::seq::SliceRandom;
use vstd::prelude::*;

verus! {

/// A moment of local time to the second, over plain numbers.
pub struct Moment {
    pub year: int,
    pub month: nat,
    pub day: nat,
    pub hour: nat,
    pub minute: nat,
    pub second: nat,
}

impl Moment {
    /// Every field is in the range of its kind. The day is not held against
    /// the month's length.
    pub open spec fn wf(self) -> bool {
        &&& 1 <= self.month <= 12
        &&& 1 <= self.day <= 31
        &&& self.hour <= 23
        &&& self.minute <= 59
        &&& self.second <= 59
    }
}

/// The year in at least four digits, with a `-` in front of a year before 0
/// and a `+` in front of a year after 9999.
pub open spec fn year_text(year: int) -> Seq<char> {
    if year < 0 {
        seq!['-'] + four_digits_or_more((-year) as nat)
    } else if year > 9999 {
        seq!['+'] + four_digits_or_more(year as nat)
    } else {
        four_digits_or_more(year as nat)
    }
}

/// What follows the year in a stamp: month, day, hour, minute and second in
/// two digits each.
pub open spec fn stamp_tail(m: Moment) -> Seq<char> {
    seq!['-'] + two_digits(m.month) + seq!['-'] + two_digits(m.day) + seq!['_'] + two_digits(
        m.hour,
    ) + seq!['-'] + two_digits(m.minute) + seq!['-'] + two_digits(m.second)
}

/// The moment in the form `YYYY-MM-DD_HH-MM-SS`.
pub open spec fn stamp(m: Moment) -> Seq<char> {
    year_text(m.year) + stamp_tail(m)
}

/// The directory that the wallpapers are saved in.
pub open spec fn directory_name() -> Seq<char> {
    "wallpapers"@
}

/// The file that a wallpaper fetched at the moment `m` is saved in, from the
/// working directory.
pub open spec fn file_name(m: Moment) -> Seq<char> {
    directory_name() + "/autosplash_"@ + stamp(m) + ".jpg"@
}

/// The address that gives a random photo of the category in the given size.
/// The category stands in it as it is.
pub open spec fn request_url(width: u16, height: u16, category: Seq<char>) -> Seq<char> {
    "https://source.unsplash.com/"@ + decimal(width as nat) + "x"@ + decimal(height as nat)
        + "/?"@ + category
}

/// What one wallpaper change asks for and where it saves the answer.
#[derive(Debug)]
pub struct WallpaperRequest {
    /// The category that was chosen.
    pub category: String,
    /// The address to fetch the photo from.
    pub url: String,
    /// The file to save it in, from the working directory.
    pub file_name: String,
}

/// A moment of local time to the second.
#[derive(Clone, Copy, Debug, PartialEq, Eq)]
pub struct Timestamp {
    year: i32,
    month: u32,
    day: u32,
    hour: u32,
    minute: u32,
    second: u32,
}

impl View for Timestamp {
    type V = Moment;

    closed spec fn view(&self) -> Moment {
        Moment {
            year: self.year as int,
            month: self.month as nat,
            day: self.day as nat,
            hour: self.hour as nat,
            minute: self.minute as nat,
            second: self.second as nat,
        }
    }
}

/// The decimal writing of a number holds digits only and reads back as the
/// number.
pub proof fn lemma_decimal_reads_back(n: nat)
    ensures
        all_digits(decimal(n)),
        number(decimal(n)) == n,
        decimal(n).len() >= 1,
    decreases n,
{
    if n < 10 {
        let s = decimal(n);
        assert(s.drop_last() =~= Seq::<char>::empty());
        assert(number(Seq::<char>::empty()) == 0);
        assert(digit_value(digit_char(n)) == n);
    } else {
        lemma_decimal_reads_back(n / 10);
        let s = decimal(n);
        assert(s.drop_last() =~= decimal(n / 10));
        assert(digit_value(digit_char(n % 10)) == n % 10);
        assert forall|i: int| 0 <= i < s.len() implies is_digit(#[trigger] s[i]) by {
            if i < s.len() - 1 {
                assert(s[i] == decimal(n / 10)[i]);
            }
        }
    }
}

/// Zeros in front change neither what a number reads as nor that it holds
/// digits only.
pub proof fn lemma_padded_reads_back(n: nat)
    ensures
        all_digits(four_digits_or_more(n)),
        number(four_digits_or_more(n)) == n,
        four_digits_or_more(n).len() >= 1,
{
    lemma_decimal_reads_back(n);
    let d = decimal(n);
    let zeros: Seq<char> = if n < 10 {
        seq!['0', '0', '0']
    } else if n < 100 {
        seq!['0', '0']
    } else if n < 1000 {
        seq!['0']
    } else {
        Seq::empty()
    };
    assert(four_digits_or_more(n) =~= zeros + d);
    lemma_number_concat(zeros, d);
    assert(number(zeros) == 0) by {
        reveal_with_fuel(number, 5);
        assert(seq!['0', '0', '0'].drop_last() =~= seq!['0', '0']);
        assert(seq!['0', '0'].drop_last() =~= seq!['0']);
        assert(seq!['0'].drop_last() =~= Seq::<char>::empty());
    }
    assert(number(zeros) * pow10(d.len()) == 0) by (nonlinear_arith)
        requires
            number(zeros) == 0,
    ;
}

/// Two years with the same writing are the same year.
pub proof fn lemma_year_text_injective(a: int, b: int)
    requires
        year_text(a) == year_text(b),
    ensures
        a == b,
{
    let na: nat = if a < 0 {
        (-a) as nat
    } else {
        a as nat
    };
    let nb: nat = if b < 0 {
        (-b) as nat
    } else {
        b as nat
    };
    lemma_padded_reads_back(na);
    lemma_padded_reads_back(nb);
    let da = four_digits_or_more(na);
    let db = four_digits_or_more(nb);
    assert(is_digit(da[0]));
    assert(is_digit(db[0]));
    let ta = year_text(a);
    let tb = year_text(b);
    assert(ta[0] == tb[0]);
    if a < 0 || a > 9999 {
        assert(ta.drop_first() =~= da);
        assert(tb.drop_first() =~= db);
    }
}

/// Two numbers under a hundred with the same two digits are the same.
pub proof fn lemma_two_digits_injective(a: nat, b: nat)
    requires
        a < 100,
        b < 100,
        two_digits(a) == two_digits(b),
    ensures
        a == b,
{
    assert(two_digits(a)[0] == two_digits(b)[0]);
    assert(two_digits(a)[1] == two_digits(b)[1]);
    assert(digit_value(digit_char(a / 10)) == a / 10);
    assert(digit_value(digit_char(b / 10)) == b / 10);
    assert(digit_value(digit_char(a % 10)) == a % 10);
    assert(digit_value(digit_char(b % 10)) == b % 10);
}

/// Two moments with the same stamp are the same moment.
pub proof fn lemma_stamp_injective(a: Moment, b: Moment)
    requires
        a.wf(),
        b.wf(),
        stamp(a) == stamp(b),
    ensures
        a == b,
{
    let ya = year_text(a.year);
    let yb = year_text(b.year);
    let ta = stamp_tail(a);
    let tb = stamp_tail(b);
    assert(ta.len() == 15);
    assert(tb.len() == 15);
    assert(stamp(a).len() == ya.len() + 15);
    assert(stamp(b).len() == yb.len() + 15);
    let n = ya.len() as int;
    assert(ya =~= stamp(a).subrange(0, n));
    assert(yb =~= stamp(b).subrange(0, n));
    lemma_year_text_injective(a.year, b.year);
    assert(ta =~= stamp(a).subrange(n, n + 15));
    assert(tb =~= stamp(b).subrange(n, n + 15));
    assert(two_digits(a.month) =~= ta.subrange(1, 3));
    assert(two_digits(b.month) =~= tb.subrange(1, 3));
    assert(two_digits(a.day) =~= ta.subrange(4, 6));
    assert(two_digits(b.day) =~= tb.subrange(4, 6));
    assert(two_digits(a.hour) =~= ta.subrange(7, 9));
    assert(two_digits(b.hour) =~= tb.subrange(7, 9));
    assert(two_digits(a.minute) =~= ta.subrange(10, 12));
    assert(two_digits(b.minute) =~= tb.subrange(10, 12));
    assert(two_digits(a.second) =~= ta.subrange(13, 15));
    assert(two_digits(b.second) =~= tb.subrange(13, 15));
    lemma_two_digits_injective(a.month, b.month);
    lemma_two_digits_injective(a.day, b.day);
    lemma_two_digits_injective(a.hour, b.hour);
    lemma_two_digits_injective(a.minute, b.minute);
    lemma_two_digits_injective(a.second, b.second);
}

/// Wallpapers fetched in different seconds are saved in different files;
/// wallpapers fetched within one second share their file.
pub proof fn lemma_file_names_differ(a: Moment, b: Moment)
    requires
        a.wf(),
        b.wf(),
    ensures
        file_name(a) == file_name(b) <==> a == b,
{
    if file_name(a) == file_name(b) {
        let head = directory_name() + "/autosplash_"@;
        let tail = ".jpg"@;
        let h = head.len() as int;
        assert(file_name(a).len() == h + stamp(a).len() + tail.len());
        assert(file_name(b).len() == h + stamp(b).len() + tail.len());
        let n = stamp(a).len() as int;
        assert(stamp(a) =~= file_name(a).subrange(h, h + n));
        assert(stamp(b) =~= file_name(b).subrange(h, h + n));
        lemma_stamp_injective(a, b);
    }
}

/// `chrono::Local::now` reads the system clock in the local time zone; the
/// fields are taken with `Datelike::year`, `month`, `day` and
/// `Timelike::hour`, `minute`, `second`. Of the moment that comes back only
/// the ranges that chrono documents for these fields are claimed: month 1 to
/// 12, day 1 to 31, hour 0 to 23, minute and second 0 to 59. The call fails
/// where the system clock stands before 1970.
#[verifier::external_body]
fn local_now() -> (now: Timestamp)
    ensures
        now@.wf(),
{
    let t = chrono::Local::now();
    Timestamp {
        year: t.year(),
        month: t.month(),
        day: t.day(),
        hour: t.hour(),
        minute: t.minute(),
        second: t.second(),
    }
}

/// `SliceRandom::choose` of rand, with the generator of `rand::thread_rng`:
/// `None` for an empty list, and else one of the list's items, whichever
/// the generator picks. The call fails where the system gives the generator
/// no seed.
#[verifier::external_body]
fn choose_random<'a>(items: &'a Vec<String>) -> (chosen: Option<&'a String>)
    ensures
        items@.len() == 0 ==> chosen is None,
        items@.len() > 0 ==> chosen is Some && items@.contains(*chosen->0),
{
    items.choose(&mut rand::thread_rng())
}

impl Timestamp {
    #[verifier::type_invariant]
    spec fn in_range(self) -> bool {
        &&& 1 <= self.month <= 12
        &&& 1 <= self.day <= 31
        &&& self.hour <= 23
        &&& self.minute <= 59
        &&& self.second <= 59
    }

    /// The moment with these fields, where each is in the range of its kind:
    /// month 1 to 12, day 1 to 31, hour 0 to 23, minute and second 0 to 59.
    pub fn new(year: i32, month: u32, day: u32, hour: u32, minute: u32, second: u32) -> (r: Option<
        Timestamp,
    >)
        ensures
            ({
                let m = Moment {
                    year: year as int,
                    month: month as nat,
                    day: day as nat,
                    hour: hour as nat,
                    minute: minute as nat,
                    second: second as nat,
                };
                match r {
                    Some(t) => m.wf() && t@ == m,
                    None => !m.wf(),
                }
            }),
    {
        if 1 <= month && month <= 12 && 1 <= day && day <= 31 && hour <= 23 && minute <= 59
            && second <= 59 {
            Some(Timestamp { year, month, day, hour, minute, second })
        } else {
            None
        }
    }

    /// The year.
    pub fn year(&self) -> (year: i32)
        ensures
            year == self@.year,
    {
        self.year
    }

    /// The month, from 1 to 12.
    pub fn month(&self) -> (month: u32)
        ensures
            month == self@.month,
            1 <= month <= 12,
    {
        proof {
            use_type_invariant(self);
        }
        self.month
    }

    /// The day of the month, from 1 to 31.
    pub fn day(&self) -> (day: u32)
        ensures
            day == self@.day,
            1 <= day <= 31,
    {
        proof {
            use_type_invariant(self);
        }
        self.day
    }

    /// The hour, from 0 to 23.
    pub fn hour(&self) -> (hour: u32)
        ensures
            hour == self@.hour,
            hour <= 23,
    {
        proof {
            use_type_invariant(self);
        }
        self.hour
    }

    /// The minute, from 0 to 59.
    pub fn minute(&self) -> (minute: u32)
        ensures
            minute == self@.minute,
            minute <= 59,
    {
        proof {
            use_type_invariant(self);
        }
        self.minute
    }

    /// The second, from 0 to 59.
    pub fn second(&self) -> (second: u32)
        ensures
            second == self@.second,
            second <= 59,
    {
        proof {
            use_type_invariant(self);
        }
        self.second
    }

    /// The present moment of local time, whatever it is.
    pub fn now() -> (now: Timestamp)
        ensures
            now@.wf(),
    {
        local_now()
    }

    /// The moment in the form `YYYY-MM-DD_HH-MM-SS`.
    pub fn stamp(&self) -> (s: String)
        ensures
            s@ == stamp(self@),
            self@.wf(),
    {
        proof {
            use_type_invariant(self);
        }
        let mut s = String::new();
        append_year(&mut s, self.year);
        s.push('-');
        append_two_digits(&mut s, self.month);
        s.push('-');
        append_two_digits(&mut s, self.day);
        s.push('_');
        append_two_digits(&mut s, self.hour);
        s.push('-');
        append_two_digits(&mut s, self.minute);
        s.push('-');
        append_two_digits(&mut s, self.second);
        assert(s@ =~= stamp(self@));
        s
    }

    /// The file that a wallpaper fetched at this moment is saved in, from
    /// the working directory.
    pub fn file_name(&self) -> (name: String)
        ensures
            name@ == file_name(self@),
            self@.wf(),
    {
        let stamp = self.stamp();
        let mut name = String::from_str(directory());
        name.append("/autosplash_");
        name.append(stamp.as_str());
        name.append(".jpg");
        name
    }
}

/// Appends the year as a stamp writes it.
fn append_year(out: &mut String, year: i32)
    ensures
        final(out)@ == old(out)@ + year_text(year as int),
{
    let wide: i64 = year as i64;
    let magnitude: u64 = if wide < 0 {
        (-wide) as u64
    } else {
        wide as u64
    };
    if year < 0 {
        out.push('-');
    } else if year > 9999 {
        out.push('+');
    }
    if magnitude < 10 {
        out.push('0');
        out.push('0');
        out.push('0');
    } else if magnitude < 100 {
        out.push('0');
        out.push('0');
    } else if magnitude < 1000 {
        out.push('0');
    }
    append_decimal(out, magnitude);
    assert(out@ =~= old(out)@ + year_text(year as int));
}

/// The directory that the wallpapers are saved in.
pub fn directory() -> (name: &'static str)
    ensures
        name@ == directory_name(),
{
    "wallpapers"
}

/// The address that gives a random photo of the category in the given size.
pub fn unsplash_url(width: u16, height: u16, category: &str) -> (url: String)
    ensures
        url@ == request_url(width, height, category@),
{
    let mut url = String::from_str("https://source.unsplash.com/");
    append_decimal(&mut url, width as u64);
    url.append("x");
    append_decimal(&mut url, height as u64);
    url.append("/?");
    url.append(category);
    url
}

/// What a change asks for, once the category and the moment are settled.
pub fn request_for(category: &str, width: u16, height: u16, now: &Timestamp) -> (r:
    WallpaperRequest)
    ensures
        r.category@ == category@,
        r.url@ == request_url(width, height, category@),
        r.file_name@ == file_name(now@),
{
    WallpaperRequest {
        category: String::from_str(category),
        url: unsplash_url(width, height, category),
        file_name: now.file_name(),
    }
}

/// One of the categories, picked at random: `None` only where there is none
/// to pick from.
pub fn pick_category(categories: &Vec<String>) -> (chosen: Option<&String>)
    ensures
        categories.len() == 0 <==> chosen is None,
        chosen matches Some(c) ==> exists|i: int|
            0 <= i < categories.len() && #[trigger] categories[i] == *c,
{
    let chosen = choose_random(categories);
    proof {
        if let Some(c) = chosen {
            let i = choose|i: int| 0 <= i < categories@.len() && categories@[i] == *c;
            assert(categories[i] == *c);
        }
    }
    chosen
}

/// What the next change asks for: a category picked at random from the
/// list, the address for it in the given size, and the file named after the
/// present moment. `None` only where the list is empty.
pub fn plan_change(categories: &Vec<String>, width: u16, height: u16) -> (r: Option<
    WallpaperRequest,
>)
    ensures
        categories.len() == 0 <==> r is None,
        r matches Some(req) ==> exists|i: int, m: Moment|
            {
                &&& 0 <= i < categories.len()
                &&& m.wf()
                &&& req.category@ == (#[trigger] categories[i])@
                &&& req.url@ == request_url(width, height, categories[i]@)
                &&& req.file_name@ == #[trigger] file_name(m)
            },
{
    match pick_category(categories) {
        None => None,
        Some(category) => {
            let now = Timestamp::now();
            let req = request_for(category.as_str(), width, height, &now);
            proof {
                let i = choose|i: int| 0 <= i < categories.len() && categories[i] == *category;
                assert(req.category@ == categories[i]@ && req.file_name@ == file_name(now@));
            }
            Some(req)
        },
    }
}

} // verus!
