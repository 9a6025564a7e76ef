//! The sections of a member, and the members of a file.
//!
//! A transport file is read card by card. It may open with a LIBRARY header
//! of three cards. Each member then brings, in this order:
//!
//! * a MEMBER header of four cards, which may be absent;
//! * a DSCRPTR header of two cards, which may be absent;
//! * a NAMESTR header of two cards;
//! * cards of zeros, which are skipped, and the descriptors of the variables,
//!   up to the OBS banner;
//! * an OBS header of two cards;
//! * the observations, up to the next card that starts with the banner text
//!   at the start of a row, or to the end of the cards.
//!
//! Bytes behind the last whole card are not read.

use crate::card::{
    card_at, card_is_banner, has_banner_prefix, has_card, is_banner, is_zero_card, all_zero,
    looks_like_header, CardStream, Section, CARD,
};
use crate::dataset::{
    datasets_view, rows_view, vars_view, vars_wf, CellView, Dataset, DatasetView, VarMeta,
    VarMetaView, XPTRow,
};
use crate::error::{XptError, XptErrorView};
use crate::namestr::{decode_variables, lemma_variables_decoded, variables_decoded, NAMESTR_LEN};
use crate::rows::{
    decode_observations, lemma_width_bounds, observations_decoded, row_width, storage_width,
};
use crate::text::{decode_char, text_decoded};
use crate::title::{infer_dataset_title, title_after_marker, title_chosen};
use vstd::prelude::*;
use vstd::slice::slice_subrange;

verus! {

/// The failure to find a card at `pos`: the data end there, or the card is
/// cut short.
pub open spec fn short_read(data: Seq<u8>, pos: int, expected: Section) -> XptErrorView {
    if pos >= data.len() {
        XptErrorView::UnexpectedEndOfFile { expected, offset: pos }
    } else {
        XptErrorView::TruncatedInput { offset: pos }
    }
}

/// The offset behind `n` cards from `pos`, or the failure at the first of
/// them that is not there.
pub open spec fn take_cards(data: Seq<u8>, pos: int, n: nat, expected: Section) -> Result<
    int,
    XptErrorView,
>
    decreases n,
{
    if n == 0 {
        Ok(pos)
    } else if !has_card(data, pos) {
        Err(short_read(data, pos, expected))
    } else {
        take_cards(data, pos + CARD, (n - 1) as nat, expected)
    }
}

/// The offset behind a header that may be absent: behind its `cards` cards if
/// the card at `pos` is its banner, else `pos`.
pub open spec fn optional_header(data: Seq<u8>, pos: int, section: Section, cards: nat) -> Result<
    int,
    XptErrorView,
> {
    if has_card(data, pos) && is_banner(card_at(data, pos), section) {
        take_cards(data, pos, cards, section)
    } else {
        Ok(pos)
    }
}

/// The failure at a card that is not the banner it should be.
pub open spec fn malformed(data: Seq<u8>, pos: int, expected: Section) -> XptErrorView {
    XptErrorView::MalformedHeader {
        expected,
        found_preview: text_decoded(card_at(data, pos).subrange(0, 60)),
        offset: pos,
    }
}

/// The offset behind the two cards of the NAMESTR header, which has to be
/// there.
pub open spec fn namestr_header(data: Seq<u8>, pos: int) -> Result<int, XptErrorView> {
    if !has_card(data, pos) {
        Err(short_read(data, pos, Section::Namestr))
    } else if !is_banner(card_at(data, pos), Section::Namestr) {
        Err(malformed(data, pos, Section::Namestr))
    } else {
        take_cards(data, pos, 2, Section::Namestr)
    }
}

/// The offset of the first card from `pos` on that is not all zeros, or of
/// the end of the cards.
pub open spec fn skip_zero_cards(data: Seq<u8>, pos: int) -> int
    decreases data.len() - pos,
{
    if has_card(data, pos) && all_zero(card_at(data, pos)) {
        skip_zero_cards(data, pos + CARD)
    } else {
        pos
    }
}

/// The offset of the first OBS banner from `pos` on, or of the end of the
/// cards.
pub open spec fn find_obs_banner(data: Seq<u8>, pos: int) -> int
    decreases data.len() - pos,
{
    if has_card(data, pos) && !is_banner(card_at(data, pos), Section::Obs) {
        find_obs_banner(data, pos + CARD)
    } else {
        pos
    }
}

/// A card at `pos` that ends the observations which start at `start`: it
/// starts with the banner text, and the cards before it are a whole number of
/// rows of `width` bytes, so that no row is cut by it.
pub open spec fn is_member_boundary(data: Seq<u8>, start: int, pos: int, width: nat) -> bool {
    has_banner_prefix(card_at(data, pos)) && (pos - start) % (width as int) == 0
}

/// The offset of the first member boundary from `pos` on, or of the end of
/// the cards.
pub open spec fn observations_end(data: Seq<u8>, start: int, pos: int, width: nat) -> int
    decreases data.len() - pos,
{
    if has_card(data, pos) && !is_member_boundary(data, start, pos, width) {
        observations_end(data, start, pos + CARD, width)
    } else {
        pos
    }
}

/// One member as the state machine leaves it: its variables and rows, the
/// offset at which its headers end and its descriptors start, and the offset
/// behind its observations.
pub struct Member {
    pub vars: Vec<VarMeta>,
    pub rows: Vec<XPTRow>,
    pub names: usize,
    pub end: usize,
}

/// The value of a `Member`.
pub struct MemberView {
    pub vars: Seq<VarMetaView>,
    pub rows: Seq<Seq<CellView>>,
    pub names: int,
    pub end: int,
}

impl View for Member {
    type V = MemberView;

    open spec fn view(&self) -> MemberView {
        MemberView {
            vars: vars_view(self.vars@),
            rows: rows_view(self.rows@),
            names: self.names as int,
            end: self.end as int,
        }
    }
}

/// The member whose descriptors start at `names`: the variables from the
/// descriptors up to the OBS banner, and the rows from the observations
/// behind the OBS header.
pub open spec fn member_body(data: Seq<u8>, names: int) -> Result<
    MemberView,
    XptErrorView,
> {
    let obs = find_obs_banner(data, names);
    if !has_card(data, obs) {
        Err(short_read(data, obs, Section::Obs))
    } else if obs - names < NAMESTR_LEN {
        Err(XptErrorView::NoVariablesDescribed { offset: names })
    } else {
        match take_cards(data, obs, 2, Section::Obs) {
            Err(e) => Err(e),
            Ok(rows_start) => {
                let vars = variables_decoded(data.subrange(names, obs));
                let end = observations_end(data, rows_start, rows_start, storage_width(vars));
                match observations_decoded(vars, data.subrange(rows_start, end)) {
                    None => Err(
                        XptErrorView::UnresolvableRowWidth {
                            offset: rows_start,
                            observation_bytes: end - rows_start,
                        },
                    ),
                    Some(rows) => Ok(MemberView { vars, rows, names, end }),
                }
            },
        }
    }
}

/// The member whose first card is at `pos`.
#[verifier::opaque]
pub open spec fn member_decoded(data: Seq<u8>, pos: int) -> Result<MemberView, XptErrorView> {
    match optional_header(data, pos, Section::Member, 4) {
        Err(e) => Err(e),
        Ok(after_member) => match optional_header(data, after_member, Section::Dscrptr, 2) {
            Err(e) => Err(e),
            Ok(after_dscrptr) => match namestr_header(data, after_dscrptr) {
                Err(e) => Err(e),
                Ok(after_namestr) => member_body(data, skip_zero_cards(data, after_namestr)),
            },
        },
    }
}

/// The offset of the first member: behind the three cards of the LIBRARY
/// header if the file opens with one, else the start of the file, which is
/// then taken to hold its members without a wrapper.
pub open spec fn first_member_start(data: Seq<u8>) -> Result<int, XptErrorView> {
    if data.len() < CARD {
        Err(XptErrorView::TruncatedInput { offset: 0 })
    } else if is_banner(card_at(data, 0), Section::Library) {
        take_cards(data, 0, 3, Section::Library)
    } else {
        Ok(0)
    }
}

/// The headers of the member whose first card is at `pos`: the bytes from
/// there to its descriptors.
pub open spec fn headers_of(data: Seq<u8>, pos: int, member: MemberView) -> Seq<u8> {
    data.subrange(pos, member.names)
}

/// The dataset that the member at `pos` becomes, under the name that its
/// headers give, else under the placeholder.
pub open spec fn dataset_of(data: Seq<u8>, pos: int, member: MemberView) -> DatasetView {
    DatasetView {
        name: title_chosen(title_after_marker(headers_of(data, pos, member)), None),
        vars: member.vars,
        rows: member.rows,
    }
}

/// The members from `pos` on: one after the other as long as a card is left.
pub open spec fn members_from(data: Seq<u8>, pos: int) -> Result<Seq<DatasetView>, XptErrorView>
    decreases data.len() - pos,
    via members_from_decreases
{
    if !has_card(data, pos) {
        Ok(Seq::empty())
    } else {
        match member_decoded(data, pos) {
            Err(e) => Err(e),
            Ok(member) => match members_from(data, member.end) {
                Err(e) => Err(e),
                Ok(rest) => Ok(seq![dataset_of(data, pos, member)] + rest),
            },
        }
    }
}

#[via_fn]
proof fn members_from_decreases(data: Seq<u8>, pos: int) {
    if has_card(data, pos) && member_decoded(data, pos).is_ok() {
        lemma_member_advances(data, pos);
    }
}

/// What a transport file decodes to: its datasets in the order of its
/// members, or the one failure that ends the decode.
pub open spec fn xpt_decoded(data: Seq<u8>) -> Result<Seq<DatasetView>, XptErrorView> {
    match first_member_start(data) {
        Err(e) => Err(e),
        Ok(start) => match members_from(data, start) {
            Err(e) => Err(e),
            Ok(datasets) => if datasets.len() == 0 {
                Err(XptErrorView::NoDatasetsFound)
            } else {
                Ok(datasets)
            },
        },
    }
}

/// The value of what a decode returns.
pub open spec fn decoded_view(r: Result<Vec<Dataset>, XptError>) -> Result<
    Seq<DatasetView>,
    XptErrorView,
> {
    match r {
        Ok(datasets) => Ok(datasets_view(datasets@)),
        Err(e) => Err(e@),
    }
}

/// Decoding is a function of the bytes: two decodes of the same bytes give
/// equal values, datasets or failure. No state outlives a decode.
pub proof fn lemma_decode_twice(
    data: Seq<u8>,
    first: Result<Vec<Dataset>, XptError>,
    second: Result<Vec<Dataset>, XptError>,
)
    requires
        decoded_view(first) == xpt_decoded(data),
        decoded_view(second) == xpt_decoded(data),
    ensures
        decoded_view(first) == decoded_view(second),
{
}

/// A decode that succeeds gives at least one dataset, each with at least one
/// variable, all of them well formed.
pub proof fn lemma_decoded_datasets(data: Seq<u8>, index: int)
    requires
        data.len() <= usize::MAX,
        xpt_decoded(data).is_ok(),
        0 <= index < xpt_decoded(data)->Ok_0.len(),
    ensures
        xpt_decoded(data)->Ok_0.len() >= 1,
        xpt_decoded(data)->Ok_0[index].vars.len() >= 1,
        vars_wf(xpt_decoded(data)->Ok_0[index].vars),
{
    let start = first_member_start(data)->Ok_0;
    if is_banner(card_at(data, 0), Section::Library) {
        lemma_take_cards(data, 0, 3, Section::Library);
    }
    lemma_members_wf(data, start, index);
}

/// Every dataset of the members from `pos` on has a variable, and its
/// variables are well formed.
pub proof fn lemma_members_wf(data: Seq<u8>, pos: int, index: int)
    requires
        data.len() <= usize::MAX,
        0 <= pos <= data.len(),
        members_from(data, pos).is_ok(),
        0 <= index < members_from(data, pos)->Ok_0.len(),
    ensures
        members_from(data, pos)->Ok_0[index].vars.len() >= 1,
        vars_wf(members_from(data, pos)->Ok_0[index].vars),
    decreases data.len() - pos,
{
    if has_card(data, pos) {
        let member = member_decoded(data, pos)->Ok_0;
        lemma_member_advances(data, pos);
        lemma_member_vars(data, pos);
        if index > 0 {
            lemma_members_wf(data, member.end, index - 1);
        }
    }
}

/// A member that decodes has a variable, and its variables are well formed.
pub proof fn lemma_member_vars(data: Seq<u8>, pos: int)
    requires
        data.len() <= usize::MAX,
        0 <= pos <= data.len(),
        member_decoded(data, pos).is_ok(),
    ensures
        member_decoded(data, pos)->Ok_0.vars.len() >= 1,
        vars_wf(member_decoded(data, pos)->Ok_0.vars),
{
    reveal(member_decoded);
    let after_member = optional_header(data, pos, Section::Member, 4)->Ok_0;
    let after_dscrptr = optional_header(data, after_member, Section::Dscrptr, 2)->Ok_0;
    let after_namestr = namestr_header(data, after_dscrptr)->Ok_0;
    let names = skip_zero_cards(data, after_namestr);
    let obs = find_obs_banner(data, names);
    let block = data.subrange(names, obs);
    lemma_member_advances(data, pos);
    lemma_variables_decoded(block);
}

/// `done` are the datasets of the members from `start` up to `pos`: the
/// members from `start` on are these and then those from `pos` on.
pub open spec fn decoded_up_to(data: Seq<u8>, start: int, pos: int, done: Seq<DatasetView>) -> bool {
    match members_from(data, pos) {
        Ok(rest) => members_from(data, start) == Ok::<Seq<DatasetView>, XptErrorView>(done + rest),
        Err(e) => members_from(data, start) == Err::<Seq<DatasetView>, XptErrorView>(e),
    }
}

/// One more member decoded is one more dataset done.
pub proof fn lemma_decoded_one_more(
    data: Seq<u8>,
    start: int,
    pos: int,
    done: Seq<DatasetView>,
    member: MemberView,
)
    requires
        has_card(data, pos),
        decoded_up_to(data, start, pos, done),
        member_decoded(data, pos) == Ok::<MemberView, XptErrorView>(member),
    ensures
        decoded_up_to(data, start, member.end, done.push(dataset_of(data, pos, member))),
{
    match members_from(data, member.end) {
        Ok(rest) => {
            assert(members_from(data, pos) == Ok::<Seq<DatasetView>, XptErrorView>(
                seq![dataset_of(data, pos, member)] + rest,
            ));
            assert(done + (seq![dataset_of(data, pos, member)] + rest) =~= done.push(dataset_of(data, pos, member))
                + rest);
        },
        Err(e) => {
            assert(members_from(data, pos) == Err::<Seq<DatasetView>, XptErrorView>(e));
        },
    }
}

/// A member that fails fails the file.
pub proof fn lemma_decoded_failure(
    data: Seq<u8>,
    start: int,
    pos: int,
    done: Seq<DatasetView>,
    e: XptErrorView,
)
    requires
        has_card(data, pos),
        decoded_up_to(data, start, pos, done),
        member_decoded(data, pos) == Err::<MemberView, XptErrorView>(e),
    ensures
        members_from(data, start) == Err::<Seq<DatasetView>, XptErrorView>(e),
{
}

/// Cards that were taken lie within the data.
pub proof fn lemma_take_cards(data: Seq<u8>, pos: int, n: nat, expected: Section)
    requires
        0 <= pos <= data.len(),
        take_cards(data, pos, n, expected).is_ok(),
    ensures
        take_cards(data, pos, n, expected) == Ok::<int, XptErrorView>(pos + n * CARD),
        pos + n * CARD <= data.len(),
    decreases n,
{
    if n > 0 {
        lemma_take_cards(data, pos + CARD, (n - 1) as nat, expected);
    }
}

/// A scan over cards stops within the data, at or behind where it started.
pub proof fn lemma_scans(data: Seq<u8>, start: int, pos: int, width: nat)
    requires
        0 <= pos <= data.len(),
    ensures
        pos <= skip_zero_cards(data, pos) <= data.len(),
        pos <= find_obs_banner(data, pos) <= data.len(),
        pos <= observations_end(data, start, pos, width) <= data.len(),
    decreases data.len() - pos,
{
    if has_card(data, pos) {
        lemma_scans(data, start, pos + CARD, width);
    }
}

/// A member that decodes takes up at least its NAMESTR and OBS headers.
pub proof fn lemma_member_advances(data: Seq<u8>, pos: int)
    requires
        0 <= pos <= data.len(),
        member_decoded(data, pos).is_ok(),
    ensures
        pos + 2 * CARD <= member_decoded(data, pos)->Ok_0.names,
        member_decoded(data, pos)->Ok_0.names + 2 * CARD <= member_decoded(data, pos)->Ok_0.end
            <= data.len(),
{
    reveal(member_decoded);
    let after_member = optional_header(data, pos, Section::Member, 4)->Ok_0;
    if has_card(data, pos) && is_banner(card_at(data, pos), Section::Member) {
        lemma_take_cards(data, pos, 4, Section::Member);
    }
    let after_dscrptr = optional_header(data, after_member, Section::Dscrptr, 2)->Ok_0;
    if has_card(data, after_member) && is_banner(card_at(data, after_member), Section::Dscrptr) {
        lemma_take_cards(data, after_member, 2, Section::Dscrptr);
    }
    let after_namestr = namestr_header(data, after_dscrptr)->Ok_0;
    lemma_take_cards(data, after_dscrptr, 2, Section::Namestr);
    let names = skip_zero_cards(data, after_namestr);
    lemma_scans(data, 0, after_namestr, 1);
    let obs = find_obs_banner(data, names);
    lemma_scans(data, 0, names, 1);
    let rows_start = take_cards(data, obs, 2, Section::Obs)->Ok_0;
    lemma_take_cards(data, obs, 2, Section::Obs);
    let vars = variables_decoded(data.subrange(names, obs));
    lemma_scans(data, rows_start, rows_start, storage_width(vars));
}

/// Takes `n` cards, or fails at the first that is not there.
fn skip_cards(stream: &mut CardStream, n: usize, expected: Section) -> (r: Result<(), XptError>)
    ensures
        final(stream).data() == old(stream).data(),
        old(stream).position() <= final(stream).position(),
        match r {
            Ok(()) => take_cards(old(stream).data(), old(stream).position(), n as nat, expected)
                == Ok::<int, XptErrorView>(final(stream).position()),
            Err(e) => take_cards(old(stream).data(), old(stream).position(), n as nat, expected)
                == Err::<int, XptErrorView>(e@),
        },
{
    let mut k: usize = 0;
    while k < n
        invariant
            k <= n,
            stream.data() == old(stream).data(),
            old(stream).position() <= stream.position(),
            take_cards(old(stream).data(), old(stream).position(), n as nat, expected)
                == take_cards(stream.data(), stream.position(), (n - k) as nat, expected),
        decreases n - k,
    {
        if stream.next_card().is_none() {
            let offset = stream.offset();
            if stream.at_end() {
                return Err(XptError::UnexpectedEndOfFile { expected, offset });
            } else {
                return Err(XptError::TruncatedInput { offset });
            }
        }
        k += 1;
    }
    Ok(())
}

/// Takes the `cards` cards of a header if the next card is its banner.
fn skip_optional_header(stream: &mut CardStream, section: Section, cards: usize) -> (r: Result<
    (),
    XptError,
>)
    ensures
        final(stream).data() == old(stream).data(),
        old(stream).position() <= final(stream).position(),
        match r {
            Ok(()) => optional_header(
                old(stream).data(),
                old(stream).position(),
                section,
                cards as nat,
            ) == Ok::<int, XptErrorView>(final(stream).position()),
            Err(e) => optional_header(
                old(stream).data(),
                old(stream).position(),
                section,
                cards as nat,
            ) == Err::<int, XptErrorView>(e@),
        },
{
    let present = match stream.peek_card() {
        Some(card) => card_is_banner(card, section),
        None => false,
    };
    if present {
        skip_cards(stream, cards, section)
    } else {
        Ok(())
    }
}

/// Takes the two cards of the NAMESTR header.
fn skip_namestr_header(stream: &mut CardStream) -> (r: Result<(), XptError>)
    ensures
        final(stream).data() == old(stream).data(),
        old(stream).position() <= final(stream).position(),
        match r {
            Ok(()) => namestr_header(old(stream).data(), old(stream).position()) == Ok::<
                int,
                XptErrorView,
            >(final(stream).position()),
            Err(e) => namestr_header(old(stream).data(), old(stream).position()) == Err::<
                int,
                XptErrorView,
            >(e@),
        },
{
    let offset = stream.offset();
    match stream.peek_card() {
        None => {
            if stream.at_end() {
                Err(XptError::UnexpectedEndOfFile { expected: Section::Namestr, offset })
            } else {
                Err(XptError::TruncatedInput { offset })
            }
        },
        Some(card) => {
            if card_is_banner(card, Section::Namestr) {
                skip_cards(stream, 2, Section::Namestr)
            } else {
                let found_preview = decode_char(slice_subrange(card, 0, 60));
                Err(
                    XptError::MalformedHeader {
                        expected: Section::Namestr,
                        found_preview,
                        offset,
                    },
                )
            }
        },
    }
}

/// Takes the cards of zeros that come next.
fn skip_zeros(stream: &mut CardStream)
    ensures
        final(stream).data() == old(stream).data(),
        old(stream).position() <= final(stream).position(),
        final(stream).position() == skip_zero_cards(old(stream).data(), old(stream).position()),
{
    loop
        invariant
            stream.data() == old(stream).data(),
            old(stream).position() <= stream.position(),
            skip_zero_cards(old(stream).data(), old(stream).position()) == skip_zero_cards(
                stream.data(),
                stream.position(),
            ),
        ensures
            stream.data() == old(stream).data(),
            old(stream).position() <= stream.position(),
            stream.position() == skip_zero_cards(old(stream).data(), old(stream).position()),
        decreases stream.data().len() - stream.position(),
    {
        let zero = match stream.peek_card() {
            Some(card) => is_zero_card(card),
            None => false,
        };
        if !zero {
            break ;
        }
        let _ = stream.next_card();
    }
}

/// Takes the cards up to the OBS banner.
fn skip_to_obs_banner(stream: &mut CardStream)
    ensures
        final(stream).data() == old(stream).data(),
        old(stream).position() <= final(stream).position(),
        final(stream).position() == find_obs_banner(old(stream).data(), old(stream).position()),
{
    loop
        invariant
            stream.data() == old(stream).data(),
            old(stream).position() <= stream.position(),
            find_obs_banner(old(stream).data(), old(stream).position()) == find_obs_banner(
                stream.data(),
                stream.position(),
            ),
        ensures
            stream.data() == old(stream).data(),
            old(stream).position() <= stream.position(),
            stream.position() == find_obs_banner(old(stream).data(), old(stream).position()),
        decreases stream.data().len() - stream.position(),
    {
        let descriptors = match stream.peek_card() {
            Some(card) => !card_is_banner(card, Section::Obs),
            None => false,
        };
        if !descriptors {
            break ;
        }
        let _ = stream.next_card();
    }
}

/// Takes the cards of the observations, whose rows are `width` bytes wide:
/// all cards up to one that starts with the banner text where no row is
/// begun. Such a card stays in the stream, as the first of the next member.
fn skip_observations(stream: &mut CardStream, width: u128)
    requires
        0 < width <= u128::MAX - CARD,
    ensures
        final(stream).data() == old(stream).data(),
        old(stream).position() <= final(stream).position(),
        final(stream).position() == observations_end(
            old(stream).data(),
            old(stream).position(),
            old(stream).position(),
            width as nat,
        ),
{
    let ghost start = stream.position();
    let mut buffered: u128 = 0;
    assert(0int % (width as int) == 0) by (nonlinear_arith)
        requires
            width > 0,
    ;
    loop
        invariant
            0 < width <= u128::MAX - CARD,
            stream.data() == old(stream).data(),
            start == old(stream).position(),
            start <= stream.position(),
            buffered < width,
            buffered == (stream.position() - start) % (width as int),
            observations_end(old(stream).data(), start, start, width as nat) == observations_end(
                stream.data(),
                start,
                stream.position(),
                width as nat,
            ),
        ensures
            stream.data() == old(stream).data(),
            start <= stream.position(),
            stream.position() == observations_end(old(stream).data(), start, start, width as nat),
        decreases stream.data().len() - stream.position(),
    {
        let more = match stream.peek_card() {
            Some(card) => !(buffered == 0 && looks_like_header(card)),
            None => false,
        };
        if !more {
            break ;
        }
        proof {
            let gone = stream.position() - start;
            assert((gone + 80) % (width as int) == (gone % (width as int) + 80) % (width as int))
                by (nonlinear_arith)
                requires
                    width > 0,
                    gone >= 0,
            ;
        }
        let _ = stream.next_card();
        buffered = (buffered + 80) % width;
    }
}

/// Decodes the member whose first card is at `pos`.
pub fn decode_member(data: &[u8], pos: usize) -> (r: Result<Member, XptError>)
    requires
        pos <= data@.len(),
    ensures
        match r {
            Ok(member) => member_decoded(data@, pos as int) == Ok::<MemberView, XptErrorView>(
                member@,
            ) && vars_wf(member@.vars) && pos + 2 * CARD <= member.names && member.names + 2
                * CARD <= member.end <= data@.len(),
            Err(e) => member_decoded(data@, pos as int) == Err::<MemberView, XptErrorView>(e@),
        },
{
    reveal(member_decoded);
    let mut stream = CardStream::at(data, pos);
    match skip_optional_header(&mut stream, Section::Member, 4) {
        Err(e) => {
            return Err(e);
        },
        Ok(()) => {},
    }
    match skip_optional_header(&mut stream, Section::Dscrptr, 2) {
        Err(e) => {
            return Err(e);
        },
        Ok(()) => {},
    }
    match skip_namestr_header(&mut stream) {
        Err(e) => {
            return Err(e);
        },
        Ok(()) => {},
    }
    skip_zeros(&mut stream);
    let names: usize = stream.offset();
    skip_to_obs_banner(&mut stream);
    let obs: usize = stream.offset();
    proof {
        lemma_scans(data@, 0, names as int, 1);
    }
    if stream.peek_card().is_none() {
        if stream.at_end() {
            return Err(XptError::UnexpectedEndOfFile { expected: Section::Obs, offset: obs });
        } else {
            return Err(XptError::TruncatedInput { offset: obs });
        }
    }
    if obs - names < NAMESTR_LEN {
        return Err(XptError::NoVariablesDescribed { offset: names });
    }
    match skip_cards(&mut stream, 2, Section::Obs) {
        Err(e) => {
            return Err(e);
        },
        Ok(()) => {},
    }
    let rows_start: usize = stream.offset();
    let vars = decode_variables(slice_subrange(data, names, obs));
    proof {
        lemma_variables_decoded(data@.subrange(names as int, obs as int));
        lemma_width_bounds(vars_view(vars@));
    }
    let width: u128 = row_width(&vars);
    skip_observations(&mut stream, width);
    let end: usize = stream.offset();
    proof {
        lemma_scans(data@, rows_start as int, rows_start as int, width as nat);
    }
    match decode_observations(&vars, slice_subrange(data, rows_start, end)) {
        None => Err(
            XptError::UnresolvableRowWidth {
                offset: rows_start,
                observation_bytes: end - rows_start,
            },
        ),
        Some(rows) => {
            let member = Member { vars, rows, names, end };
            proof {
                lemma_member_advances(data@, pos as int);
            }
            Ok(member)
        },
    }
}

/// Finds where the first member starts: behind the LIBRARY header, if the
/// file has one.
pub fn skip_library_header(data: &[u8]) -> (r: Result<usize, XptError>)
    ensures
        match r {
            Ok(start) => first_member_start(data@) == Ok::<int, XptErrorView>(start as int)
                && start <= data@.len(),
            Err(e) => first_member_start(data@) == Err::<int, XptErrorView>(e@),
        },
{
    let mut stream = CardStream::new(data);
    match stream.peek_card() {
        None => Err(XptError::TruncatedInput { offset: 0 }),
        Some(card) => {
            if card_is_banner(card, Section::Library) {
                match skip_cards(&mut stream, 3, Section::Library) {
                    Err(e) => Err(e),
                    Ok(()) => Ok(stream.offset()),
                }
            } else {
                Ok(0)
            }
        },
    }
}

/// Turns the member whose first card is at `pos` into a dataset, under the
/// name that its headers give, else under the placeholder.
pub fn into_dataset(data: &[u8], pos: usize, member: Member) -> (dataset: Dataset)
    requires
        pos <= member.names <= data@.len(),
    ensures
        dataset@ == dataset_of(data@, pos as int, member@),
{
    let Member { vars, rows, names, end: _ } = member;
    let name = infer_dataset_title(slice_subrange(data, pos, names), None);
    Dataset { name, vars, rows }
}

/// Decodes a transport file into its datasets, in the order of its members.
///
/// The file is read as a sequence of 80-byte cards. A LIBRARY header is
/// skipped if the file opens with one. Members are decoded one after the
/// other as long as a whole card is left; the first failure ends the decode,
/// and a file without a member is refused.
pub fn read_xpt_v5_from_bytes(data: &[u8]) -> (r: Result<Vec<Dataset>, XptError>)
    ensures
        decoded_view(r) == xpt_decoded(data@),
{
    let start: usize = match skip_library_header(data) {
        Err(e) => {
            return Err(e);
        },
        Ok(start) => start,
    };
    let total: usize = data.len();
    let mut datasets: Vec<Dataset> = Vec::new();
    let mut pos: usize = start;
    assert(datasets_view(datasets@) + members_from(data@, pos as int)->Ok_0
        =~= members_from(data@, pos as int)->Ok_0);
    while total - pos >= CARD
        invariant
            total == data@.len(),
            pos <= total,
            first_member_start(data@) == Ok::<int, XptErrorView>(start as int),
            decoded_up_to(data@, start as int, pos as int, datasets_view(datasets@)),
        decreases total - pos,
    {
        match decode_member(data, pos) {
            Err(e) => {
                proof {
                    lemma_decoded_failure(
                        data@,
                        start as int,
                        pos as int,
                        datasets_view(datasets@),
                        e@,
                    );
                }
                return Err(e);
            },
            Ok(member) => {
                proof {
                    lemma_decoded_one_more(
                        data@,
                        start as int,
                        pos as int,
                        datasets_view(datasets@),
                        member@,
                    );
                }
                let ghost before = datasets_view(datasets@);
                let ghost view = member@;
                let next: usize = member.end;
                datasets.push(into_dataset(data, pos, member));
                assert(datasets_view(datasets@) =~= before.push(
                    dataset_of(data@, pos as int, view),
                ));
                pos = next;
            },
        }
    }
    assert(datasets_view(datasets@) + Seq::<DatasetView>::empty() =~= datasets_view(datasets@));
    if datasets.len() == 0 {
        Err(XptError::NoDatasetsFound)
    } else {
        Ok(datasets)
    }
}

} // verus!
