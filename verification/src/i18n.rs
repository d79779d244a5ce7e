//! UI language: choice from the system locale, and localized dates.
use vstd::prelude::*;
use crate::text::{
    chars_eq, chars_of, concat, decimal, decimal_exec, law_zero_pad, shows_number, string_of, zero_pad,
    zero_padded,
};

verus! {

/// Index of the first `'.'` or `'-'` at or after `i`, or `s.len()`.
pub open spec fn locale_end(s: Seq<char>, i: int) -> int
    decreases s.len() - i,
{
    if i < 0 || i >= s.len() {
        s.len() as int
    } else if s[i] == '.' || s[i] == '-' {
        i
    } else {
        locale_end(s, i + 1)
    }
}

/// The language part of a locale value: the text before the first `'.'`
/// or `'-'` (`value.split(['.', '-']).next()`).
pub open spec fn locale_primary(s: Seq<char>) -> Seq<char> {
    s.take(locale_end(s, 0))
}

/// The language part starts with "de" in any case. (Only `'D'` and `'d'`
/// lower-case to `'d'`, only `'E'` and `'e'` to `'e'`, and neither is one
/// of the characters that lower-case to several, so this is
/// `primary.to_lowercase().starts_with("de")`.)
pub open spec fn is_german(value: Seq<char>) -> bool {
    let p = locale_primary(value);
    p.len() >= 2 && (p[0] == 'd' || p[0] == 'D') && (p[1] == 'e' || p[1] == 'E')
}

proof fn lemma_locale_end_bounds(s: Seq<char>, i: int)
    requires
        0 <= i <= s.len(),
    ensures
        i <= locale_end(s, i) <= s.len(),
    decreases s.len() - i,
{
    if i < s.len() && !(s[i] == '.' || s[i] == '-') {
        lemma_locale_end_bounds(s, i + 1);
    }
}

/// Map a raw locale value (e.g. "de_DE.UTF-8") to a supported UI language:
/// "de" for German locales, none otherwise.
pub fn parse_locale(value: &str) -> (r: Option<&'static str>)
    ensures
        is_german(value@) ==> (r matches Some(l) && l@ == "de"@),
        !is_german(value@) ==> r is None,
{
    let s = chars_of(value);
    let mut i: usize = 0;
    while i < s.len() && !(s[i] == '.' || s[i] == '-')
        invariant
            i <= s.len(),
            locale_end(s@, 0) == locale_end(s@, i as int),
        decreases s.len() - i,
    {
        i = i + 1;
    }
    proof {
        lemma_locale_end_bounds(s@, 0);
    }
    if i >= 2 && (s[0] == 'd' || s[0] == 'D') && (s[1] == 'e' || s[1] == 'E') {
        Some("de")
    } else {
        None
    }
}

/// The UI language for the values of `LC_ALL`, `LC_MESSAGES` and `LANG`
/// (`None` where unset): the first set one decides, German locales select
/// "de", everything else "en".
pub fn choose_locale(lc_all: Option<&str>, lc_messages: Option<&str>, lang: Option<&str>) -> (r:
    &'static str)
    ensures
        ({
            let first = match lc_all {
                Some(v) => Some(v@),
                None => match lc_messages {
                    Some(v) => Some(v@),
                    None => match lang {
                        Some(v) => Some(v@),
                        None => None,
                    },
                },
            };
            match first {
                Some(v) => if is_german(v) {
                    r@ == "de"@
                } else {
                    r@ == "en"@
                },
                None => r@ == "en"@,
            }
        }),
{
    let first = match lc_all {
        Some(v) => Some(v),
        None => match lc_messages {
            Some(v) => Some(v),
            None => lang,
        },
    };
    match first {
        Some(v) => match parse_locale(v) {
            Some(l) => l,
            None => "en",
        },
        None => "en",
    }
}

// ---------------------------------------------------------------------------
// Dates
// ---------------------------------------------------------------------------

/// The calendar fields of a local date and time, as the date formatting
/// reads them.
pub struct DateParts {
    /// 0 = Sunday .. 6 = Saturday
    pub weekday: i32,
    pub day: i32,
    /// 1 = January .. 12 = December
    pub month: i32,
    pub year: i32,
    pub hour: i32,
    pub minute: i32,
}

impl DateParts {
    /// Weekday and month are in range (the names are looked up by them).
    pub open spec fn valid(&self) -> bool {
        0 <= self.weekday < 7 && 1 <= self.month <= 12
    }
}

pub open spec fn weekday_name(german: bool, d: int) -> Seq<char> {
    if german {
        if d == 0 { "So"@ } else if d == 1 { "Mo"@ } else if d == 2 { "Di"@ } else if d == 3 { "Mi"@ }
        else if d == 4 { "Do"@ } else if d == 5 { "Fr"@ } else { "Sa"@ }
    } else {
        if d == 0 { "Sun"@ } else if d == 1 { "Mon"@ } else if d == 2 { "Tue"@ } else if d == 3 { "Wed"@ }
        else if d == 4 { "Thu"@ } else if d == 5 { "Fri"@ } else { "Sat"@ }
    }
}

pub open spec fn month_name(german: bool, m: int) -> Seq<char> {
    if m == 1 { "Jan"@ } else if m == 2 { "Feb"@ } else if m == 3 { if german { "Mär"@ } else { "Mar"@ } }
    else if m == 4 { "Apr"@ } else if m == 5 { if german { "Mai"@ } else { "May"@ } }
    else if m == 6 { "Jun"@ } else if m == 7 { "Jul"@ } else if m == 8 { "Aug"@ }
    else if m == 9 { "Sep"@ } else if m == 10 { if german { "Okt"@ } else { "Oct"@ } }
    else if m == 11 { "Nov"@ } else { if german { "Dez"@ } else { "Dec"@ } }
}

fn weekday_name_exec(german: bool, d: i32) -> (r: &'static str)
    requires
        0 <= d < 7,
    ensures
        r@ == weekday_name(german, d as int),
{
    if german {
        if d == 0 { "So" } else if d == 1 { "Mo" } else if d == 2 { "Di" } else if d == 3 { "Mi" }
        else if d == 4 { "Do" } else if d == 5 { "Fr" } else { "Sa" }
    } else {
        if d == 0 { "Sun" } else if d == 1 { "Mon" } else if d == 2 { "Tue" } else if d == 3 { "Wed" }
        else if d == 4 { "Thu" } else if d == 5 { "Fri" } else { "Sat" }
    }
}

fn month_name_exec(german: bool, m: i32) -> (r: &'static str)
    requires
        1 <= m <= 12,
    ensures
        r@ == month_name(german, m as int),
{
    if m == 1 { "Jan" } else if m == 2 { "Feb" } else if m == 3 { if german { "Mär" } else { "Mar" } }
    else if m == 4 { "Apr" } else if m == 5 { if german { "Mai" } else { "May" } }
    else if m == 6 { "Jun" } else if m == 7 { "Jul" } else if m == 8 { "Aug" }
    else if m == 9 { "Sep" } else if m == 10 { if german { "Okt" } else { "Oct" } }
    else if m == 11 { "Nov" } else { if german { "Dez" } else { "Dec" } }
}

/// `format!("{:0w$}", n)`: the sign first, then zeros up to width `w`.
pub open spec fn padded(n: int, w: nat) -> Seq<char> {
    if n < 0 {
        seq!['-'] + zero_pad(decimal((-n) as nat), if w >= 1 { (w - 1) as nat } else { 0 })
    } else {
        zero_pad(decimal(n as nat), w)
    }
}

fn padded_exec(n: i32, w: usize) -> (r: Vec<char>)
    requires
        w >= 1,
    ensures
        r@ == padded(n as int, w as nat),
{
    if n < 0 {
        let m: u64 = (0 - (n as i64)) as u64;
        let d = zero_padded(m, w - 1);
        let mut minus: Vec<char> = Vec::new();
        minus.push('-');
        let r = concat(&minus, &d);
        assert(minus@ =~= seq!['-']);
        r
    } else {
        zero_padded(n as u64, w)
    }
}

/// "ddd, dd Mon yyyy, HH:MM" with the weekday and month names in German
/// or English.
pub open spec fn date_text(p: DateParts, german: bool) -> Seq<char> {
    weekday_name(german, p.weekday as int) + ", "@ + padded(p.day as int, 2) + " "@ + month_name(
        german,
        p.month as int,
    ) + " "@ + padded(p.year as int, 4) + ", "@ + padded(p.hour as int, 2) + ":"@ + padded(
        p.minute as int,
        2,
    )
}

/// "ddd, dd Mon yyyy, HH:MM" with the weekday and month names in `locale`
/// ("de" German, anything else English).
pub fn format_date(p: &DateParts, locale: &str) -> (r: String)
    requires
        p.valid(),
    ensures
        r@ == date_text(*p, locale@ == "de"@),
{
    let german = chars_eq(&chars_of(locale), &chars_of("de"));
    let mut t = chars_of(weekday_name_exec(german, p.weekday));
    t = concat(&t, &chars_of(", "));
    t = concat(&t, &padded_exec(p.day, 2));
    t = concat(&t, &chars_of(" "));
    t = concat(&t, &chars_of(month_name_exec(german, p.month)));
    t = concat(&t, &chars_of(" "));
    t = concat(&t, &padded_exec(p.year, 4));
    t = concat(&t, &chars_of(", "));
    t = concat(&t, &padded_exec(p.hour, 2));
    t = concat(&t, &chars_of(":"));
    t = concat(&t, &padded_exec(p.minute, 2));
    string_of(&t)
}

/// A unix timestamp as shown in the history: its local date and time
/// (`local`, when the time zone conversion gave one) formatted in
/// `locale`, else the number itself.
pub fn format_timestamp(local: Option<DateParts>, ts: i64, locale: &str) -> (r: String)
    requires
        local matches Some(p) ==> p.valid(),
    ensures
        match local {
            Some(p) => r@ == date_text(p, locale@ == "de"@),
            None => r@ == crate::text::i64_text(ts),
        },
{
    match local {
        Some(p) => format_date(&p, locale),
        None => string_of(&crate::text::i64_text_exec(ts)),
    }
}

// ---------------------------------------------------------------------------
// Laws
// ---------------------------------------------------------------------------

/// The month names are the twelve abbreviations of the calendar, in order
/// (English, and German with "Mär", "Mai", "Okt", "Dez"), and no two
/// months share a name.
pub proof fn law_month_names(german: bool, m: int, n: int)
    ensures
        1 <= m <= 12 ==> month_name(false, m) == seq![
            "Jan"@, "Feb"@, "Mar"@, "Apr"@, "May"@, "Jun"@, "Jul"@, "Aug"@, "Sep"@, "Oct"@, "Nov"@, "Dec"@,
        ][m - 1],
        1 <= m <= 12 ==> month_name(true, m) == seq![
            "Jan"@, "Feb"@, "Mär"@, "Apr"@, "Mai"@, "Jun"@, "Jul"@, "Aug"@, "Sep"@, "Okt"@, "Nov"@, "Dez"@,
        ][m - 1],
        1 <= m <= 12 && 1 <= n <= 12 && m != n ==> month_name(german, m) != month_name(german, n),
{
    reveal_strlit("Jan");
    reveal_strlit("Feb");
    reveal_strlit("Mar");
    reveal_strlit("Mär");
    reveal_strlit("Apr");
    reveal_strlit("May");
    reveal_strlit("Mai");
    reveal_strlit("Jun");
    reveal_strlit("Jul");
    reveal_strlit("Aug");
    reveal_strlit("Sep");
    reveal_strlit("Oct");
    reveal_strlit("Okt");
    reveal_strlit("Nov");
    reveal_strlit("Dec");
    reveal_strlit("Dez");
    if 1 <= m <= 12 && 1 <= n <= 12 && m != n && month_name(german, m) == month_name(german, n) {
        assert(month_name(german, m)[0] == month_name(german, n)[0]);
        assert(month_name(german, m)[1] == month_name(german, n)[1]);
        assert(month_name(german, m)[2] == month_name(german, n)[2]);
    }
}

/// The weekday names are the seven abbreviations from Sunday (0) to
/// Saturday (6), in English and German, and no two days share a name.
pub proof fn law_weekday_names(german: bool, d: int, e: int)
    ensures
        0 <= d < 7 ==> weekday_name(false, d) == seq!["Sun"@, "Mon"@, "Tue"@, "Wed"@, "Thu"@, "Fri"@, "Sat"@][d],
        0 <= d < 7 ==> weekday_name(true, d) == seq!["So"@, "Mo"@, "Di"@, "Mi"@, "Do"@, "Fr"@, "Sa"@][d],
        0 <= d < 7 && 0 <= e < 7 && d != e ==> weekday_name(german, d) != weekday_name(german, e),
{
    reveal_strlit("Sun");
    reveal_strlit("Mon");
    reveal_strlit("Tue");
    reveal_strlit("Wed");
    reveal_strlit("Thu");
    reveal_strlit("Fri");
    reveal_strlit("Sat");
    reveal_strlit("So");
    reveal_strlit("Mo");
    reveal_strlit("Di");
    reveal_strlit("Mi");
    reveal_strlit("Do");
    reveal_strlit("Fr");
    reveal_strlit("Sa");
    if 0 <= d < 7 && 0 <= e < 7 && d != e && weekday_name(german, d) == weekday_name(german, e) {
        assert(weekday_name(german, d)[0] == weekday_name(german, e)[0]);
        assert(weekday_name(german, d)[1] == weekday_name(german, e)[1]);
    }
}

/// A date shows, after the weekday's name and ", ", the day in two digits,
/// the month's name, the year in four digits, and after ", " the hour and
/// the minute in two digits each, separated by ":" (for fields that fit
/// those widths).
pub proof fn law_date_layout(p: DateParts, german: bool)
    requires
        p.valid(),
        0 <= p.day < 100,
        0 <= p.year < 10000,
        0 <= p.hour < 100,
        0 <= p.minute < 100,
    ensures
        ({
            let t = date_text(p, german);
            let w = weekday_name(german, p.weekday as int).len() as int;
            &&& t.len() == w + 20
            &&& t.take(w) == weekday_name(german, p.weekday as int)
            &&& t.subrange(w, w + 2) == ", "@
            &&& shows_number(t.subrange(w + 2, w + 4), p.day as int, 2)
            &&& t[w + 4] == ' '
            &&& t.subrange(w + 5, w + 8) == month_name(german, p.month as int)
            &&& t[w + 8] == ' '
            &&& shows_number(t.subrange(w + 9, w + 13), p.year as int, 4)
            &&& t.subrange(w + 13, w + 15) == ", "@
            &&& shows_number(t.subrange(w + 15, w + 17), p.hour as int, 2)
            &&& t[w + 17] == ':'
            &&& shows_number(t.subrange(w + 18, w + 20), p.minute as int, 2)
        }),
{
    law_month_names(german, p.month as int, p.month as int);
    law_weekday_names(german, p.weekday as int, p.weekday as int);
    reveal_strlit(", ");
    reveal_strlit(" ");
    reveal_strlit(":");
    law_zero_pad(p.day as nat, 2);
    law_zero_pad(p.year as nat, 4);
    law_zero_pad(p.hour as nat, 2);
    law_zero_pad(p.minute as nat, 2);
    let wd = weekday_name(german, p.weekday as int);
    let mn = month_name(german, p.month as int);
    let d = padded(p.day as int, 2);
    let y = padded(p.year as int, 4);
    let h = padded(p.hour as int, 2);
    let mi = padded(p.minute as int, 2);
    assert(mn.len() == 3) by {
        reveal_strlit("Jan");
        reveal_strlit("Feb");
        reveal_strlit("Mar");
        reveal_strlit("Mär");
        reveal_strlit("Apr");
        reveal_strlit("May");
        reveal_strlit("Mai");
        reveal_strlit("Jun");
        reveal_strlit("Jul");
        reveal_strlit("Aug");
        reveal_strlit("Sep");
        reveal_strlit("Oct");
        reveal_strlit("Okt");
        reveal_strlit("Nov");
        reveal_strlit("Dec");
        reveal_strlit("Dez");
    }
    let t = date_text(p, german);
    let w = wd.len() as int;
    assert(t =~= wd + ", "@ + d + " "@ + mn + " "@ + y + ", "@ + h + ":"@ + mi);
    assert(t.take(w) =~= wd);
    assert(t.subrange(w, w + 2) =~= ", "@);
    assert(t.subrange(w + 2, w + 4) =~= d);
    assert(t.subrange(w + 5, w + 8) =~= mn);
    assert(t.subrange(w + 9, w + 13) =~= y);
    assert(t.subrange(w + 13, w + 15) =~= ", "@);
    assert(t.subrange(w + 15, w + 17) =~= h);
    assert(t.subrange(w + 18, w + 20) =~= mi);
}

} // verus!
