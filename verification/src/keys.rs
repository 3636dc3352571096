//! Where a resource is kept and where it is asked for: storage keys, the
//! names of the slots in the cache directory, and the service's addresses.
//!
//! A key is made of the parameters that identify the resource and of nothing
//! else, so the same resource has the same key in every run.

use vstd::prelude::*;
use vstd::string::*;

verus! {

/// The character of a decimal digit.
pub open spec fn digit(d: nat) -> char {
    if d == 0 {
        '0'
    } else if d == 1 {
        '1'
    } else if d == 2 {
        '2'
    } else if d == 3 {
        '3'
    } else if d == 4 {
        '4'
    } else if d == 5 {
        '5'
    } else if d == 6 {
        '6'
    } else if d == 7 {
        '7'
    } else if d == 8 {
        '8'
    } else {
        '9'
    }
}

/// A natural number in decimal digits, without leading zeros.
pub open spec fn digits(n: nat) -> Seq<char>
    decreases n,
{
    if n < 10 {
        seq![digit(n)]
    } else {
        digits(n / 10).push(digit(n % 10))
    }
}

/// An integer in decimal digits, with a minus sign in front where it is
/// negative.
pub open spec fn decimal(n: int) -> Seq<char> {
    if n < 0 {
        seq!['-'] + digits((-n) as nat)
    } else {
        digits(n as nat)
    }
}

/// A key with the characters that separate path components replaced: `/` and
/// `\` become `-`, every other character stays.
pub open spec fn sanitized(key: Seq<char>) -> Seq<char> {
    key.map_values(
        |c: char|
            if c == '/' || c == '\\' {
                '-'
            } else {
                c
            },
    )
}

/// The key of an agreement's list of majors: the receiving institution's id,
/// the sending institution's id and the academic year's id, with `-` between.
pub open spec fn agreement_key_of(receiving: int, sending: int, year: int) -> Seq<char> {
    decimal(receiving) + seq!['-'] + decimal(sending) + seq!['-'] + decimal(year)
}

/// A sanitized key is as long as the key and holds neither `/` nor `\`, and
/// a key that holds neither is left as it is.
pub proof fn lemma_sanitized(key: Seq<char>)
    ensures
        sanitized(key).len() == key.len(),
        !sanitized(key).contains('/'),
        !sanitized(key).contains('\\'),
        !key.contains('/') && !key.contains('\\') ==> sanitized(key) == key,
        sanitized(sanitized(key)) == sanitized(key),
{
    if !key.contains('/') && !key.contains('\\') {
        assert forall|i: int| 0 <= i < key.len() implies sanitized(key)[i] == key[i] by {
            assert(key.contains(key[i]));
        }
        assert(sanitized(key) =~= key);
    }
    assert(sanitized(sanitized(key)) =~= sanitized(key));
}

fn digit_text(d: u64) -> (text: &'static str)
    requires
        d < 10,
    ensures
        text@ == seq![digit(d as nat)],
{
    proof {
        reveal_strlit("0");
        reveal_strlit("1");
        reveal_strlit("2");
        reveal_strlit("3");
        reveal_strlit("4");
        reveal_strlit("5");
        reveal_strlit("6");
        reveal_strlit("7");
        reveal_strlit("8");
        reveal_strlit("9");
    }
    let text = if d == 0 {
        "0"
    } else if d == 1 {
        "1"
    } else if d == 2 {
        "2"
    } else if d == 3 {
        "3"
    } else if d == 4 {
        "4"
    } else if d == 5 {
        "5"
    } else if d == 6 {
        "6"
    } else if d == 7 {
        "7"
    } else if d == 8 {
        "8"
    } else {
        "9"
    };
    proof {
        assert(text@ =~= seq![digit(d as nat)]);
    }
    text
}

fn digits_text(n: u64) -> (text: String)
    ensures
        text@ == digits(n as nat),
    decreases n,
{
    if n < 10 {
        String::from_str(digit_text(n))
    } else {
        let mut text = digits_text(n / 10);
        text.append(digit_text(n % 10));
        proof {
            assert(digits((n / 10) as nat) + seq![digit((n % 10) as nat)] =~= digits(n as nat));
        }
        text
    }
}

/// Writes an integer in decimal.
pub fn decimal_text(n: i64) -> (text: String)
    ensures
        text@ == decimal(n as int),
{
    if n < 0 {
        let magnitude: u64 = if n == i64::MIN {
            9223372036854775808u64
        } else {
            (-n) as u64
        };
        proof {
            reveal_strlit("-");
            assert("-"@ =~= seq!['-']);
        }
        let mut text = String::from_str("-");
        let tail = digits_text(magnitude);
        text.append(tail.as_str());
        text
    } else {
        digits_text(n as u64)
    }
}

/// The storage key of the list of majors that an agreement publishes.
pub fn agreement_key(receiving_id: i64, sending_id: i64, year_id: i64) -> (key: String)
    ensures
        key@ == agreement_key_of(receiving_id as int, sending_id as int, year_id as int),
{
    proof {
        reveal_strlit("-");
        assert("-"@ =~= seq!['-']);
    }
    let mut key = decimal_text(receiving_id);
    key.append("-");
    key.append(decimal_text(sending_id).as_str());
    key.append("-");
    key.append(decimal_text(year_id).as_str());
    key
}

/// The storage key of an articulation report: the service's own key with `/`
/// and `\` replaced by `-`.
pub fn articulation_key(service_key: &str) -> (key: String)
    ensures
        key@ == sanitized(service_key@),
{
    let count = service_key.unicode_len();
    let mut key = String::new();
    let mut i: usize = 0;
    while i < count
        invariant
            count == service_key@.len(),
            i <= count,
            key@ == sanitized(service_key@).take(i as int),
        decreases count - i,
    {
        let c = service_key.get_char(i);
        proof {
            reveal_strlit("-");
            assert("-"@ =~= seq!['-']);
            assert(service_key@.subrange(i as int, i + 1) =~= seq![c]);
            assert(sanitized(service_key@).take(i + 1) =~= sanitized(service_key@).take(i as int).push(
                sanitized(service_key@)[i as int],
            ));
        }
        if c == '/' || c == '\\' {
            key.append("-");
        } else {
            key.append(service_key.substring_char(i, i + 1));
        }
        proof {
            assert(key@ =~= sanitized(service_key@).take(i + 1));
        }
        i += 1;
    }
    proof {
        assert(sanitized(service_key@).take(count as int) =~= sanitized(service_key@));
    }
    key
}

/// The name of the slot that holds an agreement's list of majors.
pub fn agreement_slot(key: &str) -> (name: String)
    ensures
        name@ == "Ag-"@ + key@ + ".json"@,
{
    let mut name = String::from_str("Ag-");
    name.append(key);
    name.append(".json");
    name
}

/// The name of the slot that holds an articulation report.
pub fn articulation_slot(key: &str) -> (name: String)
    ensures
        name@ == "Art-"@ + key@ + ".json"@,
{
    let mut name = String::from_str("Art-");
    name.append(key);
    name.append(".json");
    name
}

/// The address of the list of all institutions.
pub fn institutions_url() -> (url: String)
    ensures
        url@ == "https://assist.org/api/institutions"@,
{
    String::from_str("https://assist.org/api/institutions")
}

/// The address of the agreements of one institution.
pub fn agreements_url(institution_id: i64) -> (url: String)
    ensures
        url@ == "https://assist.org/api/institutions/"@ + decimal(institution_id as int)
            + "/agreements"@,
{
    let mut url = String::from_str("https://assist.org/api/institutions/");
    url.append(decimal_text(institution_id).as_str());
    url.append("/agreements");
    url
}

/// The address of the list of majors of an agreement in one academic year.
pub fn majors_url(receiving_id: i64, sending_id: i64, year_id: i64) -> (url: String)
    ensures
        url@ == "https://assist.org/api/agreements?receivingInstitutionId="@ + decimal(
            receiving_id as int,
        ) + "&sendingInstitutionId="@ + decimal(sending_id as int) + "&academicYearId="@ + decimal(
            year_id as int,
        ) + "&categoryCode=major"@,
{
    let mut url = String::from_str("https://assist.org/api/agreements?receivingInstitutionId=");
    url.append(decimal_text(receiving_id).as_str());
    url.append("&sendingInstitutionId=");
    url.append(decimal_text(sending_id).as_str());
    url.append("&academicYearId=");
    url.append(decimal_text(year_id).as_str());
    url.append("&categoryCode=major");
    url
}

/// The address of an articulation report, by the service's own key.
pub fn articulation_url(service_key: &str) -> (url: String)
    ensures
        url@ == "https://assist.org/api/articulation/Agreements?key="@ + service_key@,
{
    let mut url = String::from_str("https://assist.org/api/articulation/Agreements?key=");
    url.append(service_key);
    url
}

} // verus!
