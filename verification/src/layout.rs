//! What files of the usual layout decode to.
//!
//! The decoder is stated step by step in `xpt`. Here a member that is laid out
//! in full is described in one predicate, and what such a member, and a file
//! of such members, decodes to is proved from the steps: how many variables
//! and rows it has, and that nothing but the layout decides it.

use crate::card::{all_zero, card_at, has_card, is_banner, Section, CARD};
use crate::dataset::{DatasetView, VarMetaView};
use crate::error::XptErrorView;
use crate::namestr::{
    descriptor_at, descriptor_count, lemma_declared_order, lemma_variables_decoded,
    namestr_decoded, positions_ascend, variables_decoded,
};
use crate::rows::{
    lemma_width_bounds, observations_decoded, resolved_stride, rows_decoded, storage_width,
    stride_fits,
};
use crate::xpt::{
    dataset_of, find_obs_banner, first_member_start, is_member_boundary, member_body,
    member_decoded, members_from, namestr_header, observations_end, optional_header,
    skip_zero_cards, take_cards, xpt_decoded, MemberView,
};
use crate::xpt_parser::{first_member, is_parse_of, variables_of};
use crate::{XPTDataset, XptError};
use vstd::prelude::*;

verus! {

/// No card from `from` up to `to` is an OBS banner.
pub open spec fn no_obs_banner(data: Seq<u8>, from: int, to: int) -> bool {
    forall|p: int|
        from <= p < to && (p - from) % 80 == 0 ==> !is_banner(
            #[trigger] card_at(data, p),
            Section::Obs,
        )
}

/// No card from `start` up to `to` ends the observations that start at
/// `start`.
pub open spec fn no_member_boundary(data: Seq<u8>, start: int, to: int, width: nat) -> bool {
    forall|p: int|
        start <= p < to && (p - start) % 80 == 0 ==> !#[trigger] is_member_boundary(
            data,
            start,
            p,
            width,
        )
}

/// Where the descriptors of a member at `pos` start: behind its headers.
pub open spec fn descriptors_start(pos: int, with_member: bool, with_dscrptr: bool) -> int {
    pos + (if with_member {
        4 * CARD
    } else {
        0
    }) + (if with_dscrptr {
        2 * CARD
    } else {
        0
    }) + 2 * CARD
}

/// The variables of a member whose descriptors take `span` bytes from `names`.
pub open spec fn laid_out_vars(data: Seq<u8>, names: int, span: int) -> Seq<VarMetaView> {
    variables_decoded(data.subrange(names, names + span))
}

/// The member at `pos` is laid out in full and ends at `end`:
///
/// * a MEMBER header of four cards, or none (`with_member`);
/// * a DSCRPTR header of two cards, or none (`with_dscrptr`);
/// * the NAMESTR banner and one more card, of which nothing is asked;
/// * descriptors in `span` bytes of whole cards, the first card not all
///   zeros, none an OBS banner;
/// * the OBS banner and one more card;
/// * whole rows in whole cards up to `end`, no card among them a member
///   boundary; at `end` the cards end, or a member boundary stands.
pub open spec fn is_laid_out(
    data: Seq<u8>,
    pos: int,
    with_member: bool,
    with_dscrptr: bool,
    span: int,
    end: int,
) -> bool {
    let after_member = pos + if with_member {
        4 * CARD
    } else {
        0
    };
    let after_dscrptr = after_member + if with_dscrptr {
        2 * CARD
    } else {
        0
    };
    let names = descriptors_start(pos, with_member, with_dscrptr);
    let obs = names + span;
    let rows_start = obs + 2 * CARD;
    let width = storage_width(laid_out_vars(data, names, span));
    &&& 0 <= pos
    &&& has_card(data, pos)
    &&& is_banner(card_at(data, pos), Section::Member) == with_member
    &&& is_banner(card_at(data, after_member), Section::Dscrptr) == with_dscrptr
    &&& is_banner(card_at(data, after_dscrptr), Section::Namestr)
    &&& span >= 140
    &&& span % 80 == 0
    &&& !all_zero(card_at(data, names))
    &&& no_obs_banner(data, names, obs)
    &&& is_banner(card_at(data, obs), Section::Obs)
    &&& rows_start <= end <= data.len()
    &&& (end - rows_start) % 80 == 0
    &&& (end - rows_start) % (width as int) == 0
    &&& no_member_boundary(data, rows_start, end, width)
    &&& (!has_card(data, end) || is_member_boundary(data, rows_start, end, width))
}

/// What a member that is laid out in full decodes to.
pub open spec fn laid_out_member(
    data: Seq<u8>,
    pos: int,
    with_member: bool,
    with_dscrptr: bool,
    span: int,
    end: int,
) -> MemberView {
    let names = descriptors_start(pos, with_member, with_dscrptr);
    let vars = laid_out_vars(data, names, span);
    MemberView {
        vars,
        rows: rows_decoded(
            vars,
            data.subrange(names + span + 2 * CARD, end),
            storage_width(vars),
        ),
        names,
        end,
    }
}

/// Cards that are there are taken.
pub proof fn lemma_cards_taken(data: Seq<u8>, pos: int, n: nat, expected: Section)
    requires
        0 <= pos,
        pos + n * CARD <= data.len(),
    ensures
        take_cards(data, pos, n, expected) == Ok::<int, XptErrorView>(pos + n * CARD),
    decreases n,
{
    if n > 0 {
        lemma_cards_taken(data, pos + CARD, (n - 1) as nat, expected);
    }
}

/// The search for the OBS banner passes the cards that are none and stops at
/// the first that is one.
pub proof fn lemma_obs_banner_found(data: Seq<u8>, from: int, obs: int)
    requires
        0 <= from <= obs,
        (obs - from) % 80 == 0,
        no_obs_banner(data, from, obs),
        has_card(data, obs),
        is_banner(card_at(data, obs), Section::Obs),
    ensures
        find_obs_banner(data, from) == obs,
    decreases obs - from,
{
    if from < obs {
        assert(!is_banner(card_at(data, from), Section::Obs));
        assert(no_obs_banner(data, from + CARD, obs)) by {
            assert forall|p: int| from + CARD <= p < obs && (p - (from + CARD)) % 80 == 0 implies !is_banner(
                #[trigger] card_at(data, p),
                Section::Obs,
            ) by {
                assert((p - from) % 80 == 0);
            }
        }
        lemma_obs_banner_found(data, from + CARD, obs);
    }
}

/// The observations run over the cards that are no member boundary and end
/// at the first that is one, or where the cards end.
pub proof fn lemma_observations_end_found(
    data: Seq<u8>,
    start: int,
    pos: int,
    end: int,
    width: nat,
)
    requires
        0 <= start <= pos <= end <= data.len(),
        (pos - start) % 80 == 0,
        (end - pos) % 80 == 0,
        no_member_boundary(data, start, end, width),
        !has_card(data, end) || is_member_boundary(data, start, end, width),
    ensures
        observations_end(data, start, pos, width) == end,
    decreases end - pos,
{
    if pos < end {
        assert(!is_member_boundary(data, start, pos, width));
        lemma_observations_end_found(data, start, pos + CARD, end, width);
    }
}

/// A member that is laid out in full decodes, and to this: one variable for
/// each 140 bytes between the NAMESTR header and the OBS banner, one row for
/// each row's width of observations, one cell for each variable in every row.
///
/// Nothing is asked of the second card of the NAMESTR header: the number of
/// variables that it declares plays no part.
pub proof fn lemma_laid_out_member(
    data: Seq<u8>,
    pos: int,
    with_member: bool,
    with_dscrptr: bool,
    span: int,
    end: int,
)
    requires
        data.len() <= usize::MAX,
        is_laid_out(data, pos, with_member, with_dscrptr, span, end),
    ensures
        member_decoded(data, pos) == Ok::<MemberView, XptErrorView>(
            laid_out_member(data, pos, with_member, with_dscrptr, span, end),
        ),
        laid_out_member(data, pos, with_member, with_dscrptr, span, end).vars.len() == span / 140,
        storage_width(laid_out_member(data, pos, with_member, with_dscrptr, span, end).vars) > 0,
        laid_out_member(data, pos, with_member, with_dscrptr, span, end).rows.len() == (end
            - descriptors_start(pos, with_member, with_dscrptr) - span - 2 * CARD) / (storage_width(
            laid_out_member(data, pos, with_member, with_dscrptr, span, end).vars,
        ) as int),
        forall|i: int|
            0 <= i < laid_out_member(data, pos, with_member, with_dscrptr, span, end).rows.len()
                ==> (#[trigger] laid_out_member(
                data,
                pos,
                with_member,
                with_dscrptr,
                span,
                end,
            ).rows[i]).len() == span / 140,
        pos < end,
{
    reveal(member_decoded);
    let after_member = pos + if with_member {
        4 * CARD
    } else {
        0
    };
    let after_dscrptr = after_member + if with_dscrptr {
        2 * CARD
    } else {
        0
    };
    let names = descriptors_start(pos, with_member, with_dscrptr);
    let obs = names + span;
    let rows_start = obs + 2 * CARD;
    let block = data.subrange(names, obs);
    let vars = laid_out_vars(data, names, span);
    let width = storage_width(vars);
    if with_member {
        lemma_cards_taken(data, pos, 4, Section::Member);
    }
    assert(optional_header(data, pos, Section::Member, 4) == Ok::<int, XptErrorView>(after_member));
    if with_dscrptr {
        lemma_cards_taken(data, after_member, 2, Section::Dscrptr);
    }
    assert(optional_header(data, after_member, Section::Dscrptr, 2) == Ok::<int, XptErrorView>(
        after_dscrptr,
    ));
    lemma_cards_taken(data, after_dscrptr, 2, Section::Namestr);
    assert(namestr_header(data, after_dscrptr) == Ok::<int, XptErrorView>(names));
    assert(skip_zero_cards(data, names) == names);
    lemma_obs_banner_found(data, names, obs);
    lemma_cards_taken(data, obs, 2, Section::Obs);
    lemma_variables_decoded(block);
    assert(descriptor_count(block) == span / 140);
    lemma_width_bounds(vars);
    lemma_observations_end_found(data, rows_start, rows_start, end, width);
    let observations = data.subrange(rows_start, end);
    assert(stride_fits(observations, width));
    assert(resolved_stride(observations, width) == Some(width));
    assert(observations_decoded(vars, observations) == Some(
        rows_decoded(vars, observations, width),
    ));
    assert(member_body(data, names) == Ok::<MemberView, XptErrorView>(
        laid_out_member(data, pos, with_member, with_dscrptr, span, end),
    ));
}

/// A file that holds one member laid out in full, with no LIBRARY header
/// before it and no card behind it, decodes to one dataset: that member's.
/// The number of its variables is the length of its descriptors over 140,
/// whatever number the NAMESTR header declares.
pub proof fn lemma_single_member_file(
    data: Seq<u8>,
    with_member: bool,
    with_dscrptr: bool,
    span: int,
    end: int,
)
    requires
        data.len() <= usize::MAX,
        !is_banner(card_at(data, 0), Section::Library),
        is_laid_out(data, 0, with_member, with_dscrptr, span, end),
        !has_card(data, end),
    ensures
        xpt_decoded(data) == Ok::<Seq<DatasetView>, XptErrorView>(
            seq![
                dataset_of(
                    data,
                    0,
                    laid_out_member(data, 0, with_member, with_dscrptr, span, end),
                ),
            ],
        ),
        xpt_decoded(data)->Ok_0.len() == 1,
        xpt_decoded(data)->Ok_0[0].vars.len() == span / 140,
        xpt_decoded(data)->Ok_0[0].rows == laid_out_member(
            data,
            0,
            with_member,
            with_dscrptr,
            span,
            end,
        ).rows,
{
    lemma_laid_out_member(data, 0, with_member, with_dscrptr, span, end);
    let member = laid_out_member(data, 0, with_member, with_dscrptr, span, end);
    assert(first_member_start(data) == Ok::<int, XptErrorView>(0));
    assert(members_from(data, end) == Ok::<Seq<DatasetView>, XptErrorView>(Seq::empty()));
    assert(members_from(data, 0) == Ok::<Seq<DatasetView>, XptErrorView>(
        seq![dataset_of(data, 0, member)] + Seq::empty(),
    ));
    assert(seq![dataset_of(data, 0, member)] + Seq::<DatasetView>::empty() =~= seq![
        dataset_of(data, 0, member),
    ]);
}

/// A file that holds a LIBRARY header of three cards and two members laid
/// out in full, the second starting where the first ends and ending with the
/// cards, decodes to two datasets, in the order of the members. Each has the
/// variables of its own descriptors and the rows of its own observations.
pub proof fn lemma_two_member_file(
    data: Seq<u8>,
    with_member_1: bool,
    with_dscrptr_1: bool,
    span_1: int,
    end_1: int,
    with_member_2: bool,
    with_dscrptr_2: bool,
    span_2: int,
    end_2: int,
)
    requires
        data.len() <= usize::MAX,
        has_card(data, 0),
        is_banner(card_at(data, 0), Section::Library),
        is_laid_out(data, 3 * CARD, with_member_1, with_dscrptr_1, span_1, end_1),
        is_laid_out(data, end_1, with_member_2, with_dscrptr_2, span_2, end_2),
        !has_card(data, end_2),
    ensures
        xpt_decoded(data) == Ok::<Seq<DatasetView>, XptErrorView>(
            seq![
                dataset_of(
                    data,
                    3 * CARD,
                    laid_out_member(data, 3 * CARD, with_member_1, with_dscrptr_1, span_1, end_1),
                ),
                dataset_of(
                    data,
                    end_1,
                    laid_out_member(data, end_1, with_member_2, with_dscrptr_2, span_2, end_2),
                ),
            ],
        ),
        xpt_decoded(data)->Ok_0.len() == 2,
        xpt_decoded(data)->Ok_0[0].vars == laid_out_member(
            data,
            3 * CARD,
            with_member_1,
            with_dscrptr_1,
            span_1,
            end_1,
        ).vars,
        xpt_decoded(data)->Ok_0[1].vars == laid_out_member(
            data,
            end_1,
            with_member_2,
            with_dscrptr_2,
            span_2,
            end_2,
        ).vars,
        xpt_decoded(data)->Ok_0[0].vars.len() == span_1 / 140,
        xpt_decoded(data)->Ok_0[1].vars.len() == span_2 / 140,
        xpt_decoded(data)->Ok_0[0].rows == laid_out_member(
            data,
            3 * CARD,
            with_member_1,
            with_dscrptr_1,
            span_1,
            end_1,
        ).rows,
        xpt_decoded(data)->Ok_0[1].rows == laid_out_member(
            data,
            end_1,
            with_member_2,
            with_dscrptr_2,
            span_2,
            end_2,
        ).rows,
{
    let start = 3 * CARD;
    lemma_laid_out_member(data, start, with_member_1, with_dscrptr_1, span_1, end_1);
    lemma_laid_out_member(data, end_1, with_member_2, with_dscrptr_2, span_2, end_2);
    let first = laid_out_member(data, start, with_member_1, with_dscrptr_1, span_1, end_1);
    let second = laid_out_member(data, end_1, with_member_2, with_dscrptr_2, span_2, end_2);
    lemma_cards_taken(data, 0, 3, Section::Library);
    assert(first_member_start(data) == Ok::<int, XptErrorView>(start));
    assert(members_from(data, end_2) == Ok::<Seq<DatasetView>, XptErrorView>(Seq::empty()));
    assert(members_from(data, end_1) == Ok::<Seq<DatasetView>, XptErrorView>(
        seq![dataset_of(data, end_1, second)] + Seq::empty(),
    ));
    assert(members_from(data, start) == Ok::<Seq<DatasetView>, XptErrorView>(
        seq![dataset_of(data, start, first)] + (seq![dataset_of(data, end_1, second)]
            + Seq::empty()),
    ));
    assert(seq![dataset_of(data, start, first)] + (seq![dataset_of(data, end_1, second)]
        + Seq::<DatasetView>::empty()) =~= seq![
        dataset_of(data, start, first),
        dataset_of(data, end_1, second),
    ]);
}

/// Where the positions that the descriptors of a laid-out member declare
/// ascend, its variables stand in the order of the descriptors: the `k`-th
/// has the name, the kind and the length that the `k`-th descriptor gives.
pub proof fn lemma_laid_out_variables_in_order(
    data: Seq<u8>,
    pos: int,
    with_member: bool,
    with_dscrptr: bool,
    span: int,
    end: int,
    k: int,
)
    requires
        data.len() <= usize::MAX,
        is_laid_out(data, pos, with_member, with_dscrptr, span, end),
        positions_ascend(
            data.subrange(
                descriptors_start(pos, with_member, with_dscrptr),
                descriptors_start(pos, with_member, with_dscrptr) + span,
            ),
        ),
        0 <= k < span / 140,
    ensures
        laid_out_member(data, pos, with_member, with_dscrptr, span, end).vars[k]
            == namestr_decoded(
            descriptor_at(
                data.subrange(
                    descriptors_start(pos, with_member, with_dscrptr),
                    descriptors_start(pos, with_member, with_dscrptr) + span,
                ),
                k,
            ),
        ),
{
    let names = descriptors_start(pos, with_member, with_dscrptr);
    let block = data.subrange(names, names + span);
    assert(descriptor_count(block) == span / 140);
    lemma_declared_order(block, k);
}

/// Parsing a file that holds one member laid out in full, with no LIBRARY
/// header before it, succeeds, with one variable for each 140 bytes of
/// descriptors, whatever number the NAMESTR header declares, and with the
/// member's rows.
pub proof fn lemma_parse_of_single_member_file(
    data: Seq<u8>,
    with_member: bool,
    with_dscrptr: bool,
    span: int,
    end: int,
    named: bool,
    r: Result<XPTDataset, XptError>,
)
    requires
        data.len() <= usize::MAX,
        !is_banner(card_at(data, 0), Section::Library),
        is_laid_out(data, 0, with_member, with_dscrptr, span, end),
        is_parse_of(data, named, r),
    ensures
        r.is_ok(),
        r->Ok_0@.variables.len() == span / 140,
        r->Ok_0@.variables == variables_of(
            laid_out_member(data, 0, with_member, with_dscrptr, span, end).vars,
        ),
        r->Ok_0@.rows == laid_out_member(data, 0, with_member, with_dscrptr, span, end).rows,
{
    lemma_laid_out_member(data, 0, with_member, with_dscrptr, span, end);
    assert(first_member_start(data) == Ok::<int, XptErrorView>(0));
    assert(first_member(data) == Ok::<MemberView, XptErrorView>(
        laid_out_member(data, 0, with_member, with_dscrptr, span, end),
    ));
}

} // verus!
