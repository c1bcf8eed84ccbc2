//! Per-transaction CSV rows: rendering one record as the line
//! `timestamp,signature,success,fee_lamports,compute_units`, and reading such
//! a line back.  Re-parsing a rendered row reproduces the record's
//! signature, success flag, fee and compute cost exactly — provided the
//! signature itself holds no comma, which the chain's base58 signatures
//! never do.

use vstd::prelude::*;
use vstd::string::StringExecFns;
use vstd::string::StrSliceExecFns;
use crate::text::{
    all_digits, bool_text, bool_to_str, dec_digits, is_digit_char, parse_u64, parse_u64_spec,
    str_eq_chars, u64_to_dec,
};
use crate::types::{TransactionRecord, ts_in_range};

verus! {

/// The text the row's timestamp column carries for the instant `t`: what the
/// calendar formatter prints for it.
pub uninterp spec fn ts_text_of(t: i64) -> Seq<char>;

/// Relies on chrono's `DateTime::from_timestamp` and `%Y-%m-%d %H:%M:%S`
/// formatting: within the library's timestamp range the conversion succeeds,
/// and the text is determined by `t` alone — nineteen characters, year
/// through second, zero-padded, holding digits, dashes, colons and a space
/// but never a comma.
#[verifier::external_body]
fn format_timestamp(t: i64) -> (r: String)
    requires
        ts_in_range(t),
    ensures
        r@ == ts_text_of(t),
        r@.len() == 19,
        forall|i: int| 0 <= i < r@.len() ==> r@[i] != ',',
{
    let dt = chrono::DateTime::<chrono::Utc>::from_timestamp(t, 0).unwrap();
    format!("{}", dt.format("%Y-%m-%d %H:%M:%S"))
}

/// No comma anywhere: the property that keeps a column from splitting.
pub open spec fn comma_free(s: Seq<char>) -> bool {
    forall|i: int| 0 <= i < s.len() ==> s[i] != ','
}

/// The compute-units column: the count in decimal, or `N/A` where the
/// transaction version does not expose it.
pub open spec fn cu_text(cu: Option<u64>) -> Seq<char> {
    match cu {
        Some(v) => dec_digits(v as nat),
        None => "N/A"@,
    }
}

/// The whole row for one record.
pub open spec fn csv_row_text(r: TransactionRecord) -> Seq<char> {
    ts_text_of(r.timestamp) + seq![','] + r.signature@ + seq![','] + bool_text(r.success)
        + seq![','] + dec_digits(r.fee_lamports as nat) + seq![','] + cu_text(r.compute_units)
}

/// The comma-separated columns of a line; a line always has at least one
/// column, and `n` commas make `n + 1` columns.
pub open spec fn split_commas(s: Seq<char>) -> Seq<Seq<char>>
    decreases s.len(),
{
    if s.len() == 0 {
        seq![Seq::<char>::empty()]
    } else {
        let rest = split_commas(s.drop_first());
        if s[0] == ',' {
            seq![Seq::<char>::empty()] + rest
        } else {
            seq![seq![s[0]] + rest[0]] + rest.drop_first()
        }
    }
}

proof fn lemma_split_nonempty(s: Seq<char>)
    ensures
        split_commas(s).len() >= 1,
    decreases s.len(),
{
    if s.len() > 0 {
        lemma_split_nonempty(s.drop_first());
    }
}

/// A line without commas is one single column.
proof fn lemma_split_no_comma(s: Seq<char>)
    requires
        comma_free(s),
    ensures
        split_commas(s) == seq![s],
    decreases s.len(),
{
    if s.len() == 0 {
        assert(s =~= Seq::<char>::empty());
        assert(split_commas(s) =~= seq![s]);
    } else {
        let d = s.drop_first();
        assert(comma_free(d)) by {
            assert(forall|i: int| 0 <= i < d.len() ==> d[i] == s[i + 1]);
        }
        lemma_split_no_comma(d);
        let rest = split_commas(d);
        assert(rest[0] == d);
        assert(seq![s[0]] + rest[0] =~= s);
        assert(rest.drop_first() =~= Seq::<Seq<char>>::empty());
        assert(split_commas(s) =~= seq![s]);
    }
}

/// Splitting after a comma-free column yields that column and then the rest
/// of the line's columns.
proof fn lemma_split_concat(a: Seq<char>, b: Seq<char>)
    requires
        comma_free(a),
    ensures
        split_commas(a + seq![','] + b) == seq![a] + split_commas(b),
    decreases a.len(),
{
    let s = a + seq![','] + b;
    if a.len() == 0 {
        assert(s[0] == ',');
        assert(s.drop_first() =~= b);
        assert(a =~= Seq::<char>::empty());
        assert(split_commas(s) =~= seq![a] + split_commas(b));
    } else {
        let a1 = a.drop_first();
        assert(comma_free(a1)) by {
            assert(forall|i: int| 0 <= i < a1.len() ==> a1[i] == a[i + 1]);
        }
        assert(s[0] == a[0]);
        assert(s[0] != ',');
        assert(s.drop_first() =~= a1 + seq![','] + b);
        lemma_split_concat(a1, b);
        let rest = split_commas(s.drop_first());
        assert(rest == seq![a1] + split_commas(b));
        lemma_split_nonempty(b);
        assert(rest[0] == a1);
        assert(seq![s[0]] + rest[0] =~= a);
        assert(rest.drop_first() =~= split_commas(b));
        assert(split_commas(s) =~= seq![a] + split_commas(b));
    }
}

/// What the success column denotes.
pub open spec fn parse_flag(s: Seq<char>) -> Option<bool> {
    if s == "true"@ {
        Some(true)
    } else if s == "false"@ {
        Some(false)
    } else {
        None
    }
}

/// What the compute-units column denotes.
pub open spec fn parse_cu(s: Seq<char>) -> Option<Option<u64>> {
    if s == "N/A"@ {
        Some(None)
    } else {
        match parse_u64_spec(s) {
            Some(v) => Some(Some(v)),
            None => None,
        }
    }
}

/// What one line of the per-transaction CSV denotes: its signature, success
/// flag, fee and compute cost, provided the line has exactly five columns
/// and each typed column reads back.  The timestamp column is carried along
/// but not interpreted.
pub open spec fn parse_row_spec(s: Seq<char>) -> Option<(Seq<char>, bool, u64, Option<u64>)> {
    let fields = split_commas(s);
    if fields.len() == 5 {
        match (parse_flag(fields[2]), parse_u64_spec(fields[3]), parse_cu(fields[4])) {
            (Some(b), Some(fee), Some(cu)) => Some((fields[1], b, fee, cu)),
            _ => None,
        }
    } else {
        None
    }
}

/// Assembling five columns with commas and reading the line back yields the
/// assembled values: the CSV row round-trips, for any comma-free timestamp
/// column and comma-free signature.
pub proof fn lemma_row_fields_parse(
    ts: Seq<char>,
    sig: Seq<char>,
    success: bool,
    fee: u64,
    cu: Option<u64>,
)
    requires
        comma_free(ts),
        comma_free(sig),
    ensures
        parse_row_spec(
            ts + seq![','] + sig + seq![','] + bool_text(success) + seq![','] + dec_digits(
                fee as nat,
            ) + seq![','] + cu_text(cu),
        ) == Some((sig, success, fee, cu)),
{
    reveal_strlit("true");
    reveal_strlit("false");
    reveal_strlit("N/A");
    let bt = bool_text(success);
    let ft = dec_digits(fee as nat);
    let ct = cu_text(cu);
    crate::text::lemma_dec_round_trip(fee as nat);
    assert(comma_free(bt));
    assert(comma_free(ft)) by {
        assert(forall|i: int| 0 <= i < ft.len() ==> is_digit_char(#[trigger] ft[i]));
    }
    if cu is Some {
        crate::text::lemma_dec_round_trip(cu->0 as nat);
        assert(comma_free(ct)) by {
            assert(forall|i: int| 0 <= i < ct.len() ==> is_digit_char(#[trigger] ct[i]));
        }
    } else {
        assert(comma_free(ct));
    }
    let row = ts + seq![','] + sig + seq![','] + bt + seq![','] + ft + seq![','] + ct;
    let r1 = sig + seq![','] + bt + seq![','] + ft + seq![','] + ct;
    let r2 = bt + seq![','] + ft + seq![','] + ct;
    let r3 = ft + seq![','] + ct;
    assert(row =~= ts + seq![','] + r1);
    lemma_split_concat(ts, r1);
    assert(r1 =~= sig + seq![','] + r2);
    lemma_split_concat(sig, r2);
    assert(r2 =~= bt + seq![','] + r3);
    lemma_split_concat(bt, r3);
    lemma_split_concat(ft, ct);
    lemma_split_no_comma(ct);
    let fields = split_commas(row);
    assert(split_commas(r3) == seq![ft] + seq![ct]);
    assert(split_commas(r2) == seq![bt] + (seq![ft] + seq![ct]));
    assert(split_commas(r1) == seq![sig] + (seq![bt] + (seq![ft] + seq![ct])));
    assert(fields == seq![ts] + (seq![sig] + (seq![bt] + (seq![ft] + seq![ct]))));
    assert(fields =~= seq![ts, sig, bt, ft, ct]);
    assert(parse_flag(fields[2]) == Some(success)) by {
        if success {
            assert(bt == "true"@);
        } else {
            assert(bt == "false"@);
            assert(bt != "true"@);
        }
    }
    assert(parse_u64_spec(fields[3]) == Some(fee));
    assert(parse_cu(fields[4]) == Some(cu)) by {
        match cu {
            Some(v) => {
                assert(ct != "N/A"@) by {
                    assert(ct.len() >= 1);
                    assert(is_digit_char(ct[0]));
                    if ct == "N/A"@ {
                        assert(ct[0] == 'N');
                    }
                }
                assert(parse_u64_spec(ct) == Some(v));
            },
            None => {
                assert(ct == "N/A"@);
            },
        }
    }
}

/// Renders the CSV row of one record.  Reading the line back yields the
/// record's signature, success flag, fee and compute cost, as long as the
/// signature holds no comma.
pub fn csv_row(rec: &TransactionRecord) -> (line: String)
    requires
        ts_in_range(rec.timestamp),
    ensures
        line@ == csv_row_text(*rec),
        comma_free(rec.signature@) ==> parse_row_spec(line@) == Some(
            (rec.signature@, rec.success, rec.fee_lamports, rec.compute_units),
        ),
{
    let mut line = format_timestamp(rec.timestamp);
    proof {
        reveal_strlit(",");
        assert(","@ =~= seq![',']);
    }
    line.append(",");
    line.append(rec.signature.as_str());
    line.append(",");
    line.append(bool_to_str(rec.success));
    line.append(",");
    let fee_text = u64_to_dec(rec.fee_lamports);
    line.append(fee_text.as_str());
    line.append(",");
    match rec.compute_units {
        Some(v) => {
            let cu = u64_to_dec(v);
            line.append(cu.as_str());
        },
        None => {
            line.append("N/A");
        },
    }
    proof {
        assert(line@ =~= csv_row_text(*rec));
        if comma_free(rec.signature@) {
            assert(comma_free(ts_text_of(rec.timestamp)));
            lemma_row_fields_parse(
                ts_text_of(rec.timestamp),
                rec.signature@,
                rec.success,
                rec.fee_lamports,
                rec.compute_units,
            );
        }
    }
    line
}

/// The header line above the rows.
pub fn csv_header() -> (r: &'static str)
    ensures
        r@ == "timestamp,signature,success,fee_lamports,compute_units"@,
{
    "timestamp,signature,success,fee_lamports,compute_units"
}

/// One parsed row: what the reader recovered from a line.
pub struct ParsedRow {
    pub signature: String,
    pub success: bool,
    pub fee_lamports: u64,
    pub compute_units: Option<u64>,
}

/// Splits a line at its commas.
fn split_line(s: &str) -> (fields: Vec<String>)
    ensures
        fields@.map_values(|f: String| f@) == split_commas(s@),
{
    let n: usize = s.unicode_len();
    let mut fields: Vec<String> = Vec::new();
    let mut start: usize = 0;
    let mut i: usize = 0;
    proof {
        assert(s@.skip(0) =~= s@);
        assert(s@.subrange(0, 0) =~= Seq::<char>::empty());
        assert(fields@.map_values(|f: String| f@) =~= Seq::<Seq<char>>::empty());
        assert(Seq::<Seq<char>>::empty() + split_commas(s@) =~= split_commas(s@));
    }
    while i < n
        invariant
            n == s@.len(),
            0 <= start <= i <= n,
            comma_free(s@.subrange(start as int, i as int)),
            split_commas(s@) == fields@.map_values(|f: String| f@) + split_commas(
                s@.skip(start as int),
            ),
        decreases n - i,
    {
        let c = s.get_char(i);
        if c == ',' {
            let field = String::from_str(s.substring_char(start, i));
            proof {
                let fs = s@.subrange(start as int, i as int);
                assert(s@.skip(start as int) =~= fs + seq![','] + s@.skip(i + 1));
                lemma_split_concat(fs, s@.skip(i + 1));
                assert((fields@.push(field)).map_values(|f: String| f@) =~= fields@.map_values(
                    |f: String| f@,
                ).push(field@));
                assert(fields@.map_values(|f: String| f@).push(fs) + split_commas(s@.skip(i + 1))
                    =~= fields@.map_values(|f: String| f@) + (seq![fs] + split_commas(
                    s@.skip(i + 1),
                )));
            }
            fields.push(field);
            start = i + 1;
            proof {
                assert(s@.subrange(start as int, i + 1) =~= Seq::<char>::empty());
            }
        } else {
            proof {
                assert(s@.subrange(start as int, i + 1) =~= s@.subrange(
                    start as int,
                    i as int,
                ).push(s@[i as int]));
            }
        }
        i = i + 1;
    }
    let field = String::from_str(s.substring_char(start, n));
    proof {
        assert(s@.skip(start as int) =~= s@.subrange(start as int, n as int));
        lemma_split_no_comma(s@.subrange(start as int, n as int));
        assert((fields@.push(field)).map_values(|f: String| f@) =~= fields@.map_values(
            |f: String| f@,
        ).push(field@));
        assert(fields@.map_values(|f: String| f@).push(field@) =~= fields@.map_values(
            |f: String| f@,
        ) + seq![s@.subrange(start as int, n as int)]);
    }
    fields.push(field);
    fields
}

/// Reads one line of the per-transaction CSV: the recovered signature,
/// success flag, fee and compute cost, or nothing where the line does not
/// have five well-formed columns.
pub fn parse_csv_row(line: &str) -> (r: Option<ParsedRow>)
    ensures
        r is Some <==> parse_row_spec(line@) is Some,
        r matches Some(p) ==> parse_row_spec(line@) matches Some(q) && p.signature@ == q.0
            && p.success == q.1 && p.fee_lamports == q.2 && p.compute_units == q.3,
{
    let fields = split_line(line);
    let ghost fv = fields@.map_values(|f: String| f@);
    proof {
        assert(fv.len() == fields@.len());
        assert(forall|i: int| 0 <= i < fields@.len() ==> fv[i] == (#[trigger] fields@[i])@);
    }
    if fields.len() != 5 {
        return None;
    }
    let success: bool = if str_eq_chars(fields[2].as_str(), "true") {
        true
    } else if str_eq_chars(fields[2].as_str(), "false") {
        false
    } else {
        return None;
    };
    let fee_lamports: u64 = match parse_u64(fields[3].as_str()) {
        Some(v) => v,
        None => {
            return None;
        },
    };
    let compute_units: Option<u64> = if str_eq_chars(fields[4].as_str(), "N/A") {
        None
    } else {
        match parse_u64(fields[4].as_str()) {
            Some(v) => Some(v),
            None => {
                return None;
            },
        }
    };
    let signature = fields[1].clone();
    Some(ParsedRow { signature, success, fee_lamports, compute_units })
}

} // verus!
