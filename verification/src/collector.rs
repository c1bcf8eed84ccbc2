//! The signature collector: decides how the reverse-chronological, cursor
//! paginated signature listing is walked, when the walk stops, how the
//! boundary page is trimmed, and which of the accumulated entries the time
//! window finally admits.  The caller performs the listing calls themselves
//! and feeds each page back in.

use vstd::prelude::*;
use crate::types::{SignatureEntry, TimeWindow};

verus! {

/// How many entries each listing call asks for.
pub const PAGE_LIMIT: usize = 100;

/// How long to pause between listing calls, in milliseconds, to respect the
/// gateway's undocumented rate limit.
pub const PAGE_DELAY_MS: u64 = 100;

/// Whether `s` is a well-formed account address: the name of what the chain
/// SDK's address parser accepts.
pub uninterp spec fn address_ok(s: Seq<char>) -> bool;

/// Relies on `solana_sdk::pubkey::Pubkey::from_str` (solana-program's
/// `Pubkey`): it accepts exactly the base58 strings that decode to 32 bytes,
/// deciding from the string alone; a string over 44 characters, or an empty
/// one, is rejected before decoding.
#[verifier::external_body]
fn parse_address_ok(s: &str) -> (r: bool)
    ensures
        r == address_ok(s@),
        s@.len() == 0 ==> !r,
        s@.len() > 44 ==> !r,
{
    <solana_sdk::pubkey::Pubkey as core::str::FromStr>::from_str(s).is_ok()
}

/// The configuration fault that aborts a run before any network call: the
/// account identifier is not a valid address.
#[derive(Clone, Copy, Debug, PartialEq, Eq, Structural)]
pub struct InvalidAddress;

/// Checks the account identifier and fixes the run's time window, the two
/// things settled before the first network call.  Fails exactly on an
/// identifier the chain's address format rejects.
pub fn start_run(sender_address: &str, hours_to_look_back: i64, now: i64) -> (r: Result<
    TimeWindow,
    InvalidAddress,
>)
    ensures
        r is Ok <==> address_ok(sender_address@),
        r is Ok ==> r->Ok_0.to == now && r->Ok_0.from == crate::types::clamp_to_i64(
            now as int - hours_to_look_back as int * 3600,
        ),
{
    if parse_address_ok(sender_address) {
        Ok(TimeWindow::new(now, hours_to_look_back))
    } else {
        Err(InvalidAddress)
    }
}

/// Whether a listing entry carries a confirmed block time at or after `from`.
/// These are the entries the boundary page keeps.
pub open spec fn entry_at_or_after(s: SignatureEntry, from: i64) -> bool {
    match s.block_time {
        Some(t) => t >= from,
        None => false,
    }
}

/// Whether a page's oldest entry (its last: pages arrive newest first) has a
/// confirmed block time strictly before the window's start.  When it does,
/// the walk has crossed the window boundary and stops on this page.
pub open spec fn page_crosses_start(page: Seq<SignatureEntry>, w: TimeWindow) -> bool {
    page.len() > 0 && match page.last().block_time {
        Some(t) => t < w.from,
        None => false,
    }
}

/// What one page of the listing tells the walk to do next.
pub enum PageStep {
    /// The page was empty: history is exhausted, stop.
    NoMore,
    /// The page crossed the window's start: keep only its entries with a
    /// block time at or after the start — they may sit anywhere in the page,
    /// since ordering within a page is not monotonic — and stop.
    Boundary { kept: Vec<SignatureEntry> },
    /// The page lies wholly at or after the start (as far as its oldest entry
    /// tells): keep all of it and continue before `cursor`, its oldest
    /// signature.
    Continue { page: Vec<SignatureEntry>, cursor: String },
}

/// Decides, from one fetched page, whether the pagination walk stops, trims,
/// or continues, and with which cursor.
pub fn page_step(page: Vec<SignatureEntry>, w: &TimeWindow) -> (r: PageStep)
    ensures
        r is NoMore <==> page@.len() == 0,
        r is Boundary <==> page_crosses_start(page@, *w),
        r is Boundary ==> r->Boundary_kept@ == page@.filter(
            |s: SignatureEntry| entry_at_or_after(s, w.from),
        ),
        r is Continue ==> r->Continue_page@ == page@ && r->Continue_cursor@
            == page@.last().signature@,
{
    if page.len() == 0 {
        return PageStep::NoMore;
    }
    let crosses: bool = match page[page.len() - 1].block_time {
        Some(t) => t < w.from,
        None => false,
    };
    if crosses {
        let kept = keep_at_or_after(page, w.from);
        PageStep::Boundary { kept }
    } else {
        let cursor = clone_string(&page[page.len() - 1].signature);
        PageStep::Continue { page, cursor }
    }
}

/// A copy of `s` with the same characters.
fn clone_string(s: &String) -> (r: String)
    ensures
        r@ == s@,
{
    let r = s.clone();
    r
}

/// The entries of `page`, in order, whose block time is at or after `from`.
fn keep_at_or_after(page: Vec<SignatureEntry>, from: i64) -> (kept: Vec<SignatureEntry>)
    ensures
        kept@ == page@.filter(|s: SignatureEntry| entry_at_or_after(s, from)),
{
    broadcast use vstd::seq_lib::group_seq_properties;

    let mut rest = page;
    let mut kept: Vec<SignatureEntry> = Vec::new();
    let ghost all = rest@;
    let n: usize = rest.len();
    proof {
        assert(all.len() == n);
    }
    let mut taken: usize = 0;
    while rest.len() > 0
        invariant
            all.len() <= usize::MAX,
            taken + rest@.len() == all.len(),
            rest@ == all.skip(taken as int),
            kept@ == all.take(taken as int).filter(|s: SignatureEntry| entry_at_or_after(s, from)),
        decreases rest@.len(),
    {
        let e = rest.remove(0);
        assert(all.take(taken + 1) =~= all.take(taken as int).push(e));
        assert(rest@ =~= all.skip(taken + 1));
        let keep: bool = match e.block_time {
            Some(t) => t >= from,
            None => false,
        };
        proof {
            all.take(taken as int).lemma_filter_push(
                e,
                |s: SignatureEntry| entry_at_or_after(s, from),
            );
        }
        if keep {
            kept.push(e);
        }
        taken = taken + 1;
    }
    proof {
        assert(all.take(taken as int) =~= all);
    }
    kept
}

/// The entries of the accumulated listing, in order, whose confirmed block
/// time the window admits; entries with no block time are dropped.  This is
/// the second, full filter pass after pagination ends: it re-checks the start
/// bound for every page and also enforces the window's end.
pub fn filter_in_window(sigs: Vec<SignatureEntry>, w: &TimeWindow) -> (kept: Vec<SignatureEntry>)
    ensures
        kept@ == sigs@.filter(|s: SignatureEntry| in_window(s, *w)),
{
    broadcast use vstd::seq_lib::group_seq_properties;

    let ghost win = *w;
    let mut rest = sigs;
    let mut kept: Vec<SignatureEntry> = Vec::new();
    let ghost all = rest@;
    let n: usize = rest.len();
    proof {
        assert(all.len() == n);
    }
    let mut taken: usize = 0;
    while rest.len() > 0
        invariant
            win == *w,
            all.len() <= usize::MAX,
            taken + rest@.len() == all.len(),
            rest@ == all.skip(taken as int),
            kept@ == all.take(taken as int).filter(|s: SignatureEntry| in_window(s, win)),
        decreases rest@.len(),
    {
        let e = rest.remove(0);
        assert(all.take(taken + 1) =~= all.take(taken as int).push(e));
        assert(rest@ =~= all.skip(taken + 1));
        let keep: bool = match e.block_time {
            Some(t) => w.from <= t && t <= w.to,
            None => false,
        };
        proof {
            all.take(taken as int).lemma_filter_push(e, |s: SignatureEntry| in_window(s, win));
        }
        if keep {
            kept.push(e);
        }
        taken = taken + 1;
    }
    proof {
        assert(all.take(taken as int) =~= all);
    }
    kept
}

/// Whether a listing entry carries a confirmed block time the window admits.
pub open spec fn in_window(s: SignatureEntry, w: TimeWindow) -> bool {
    match s.block_time {
        Some(t) => w.admits(t),
        None => false,
    }
}

} // verus!
