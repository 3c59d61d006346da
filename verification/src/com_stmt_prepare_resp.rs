//! The answer to a prepare request: a prepare-ok packet, then the
//! definitions of the parameters, then those of the result columns.
//!
//! How many packets the answer has is written in its first packet, and
//! whether a group of definitions is closed by an EOF packet depends on the
//! capabilities of the connection. A group without members has no packet at
//! all, terminator included.

use vstd::prelude::*;
use crate::capabilities::Capabilities;
use crate::error::DecodeError;
use crate::framer;
use crate::framer::Framer;
use crate::messages;
use crate::messages::ColumnDef;
use crate::messages::ColumnDefPacket;
use crate::messages::ComStmtPrepareOk;
use crate::messages::EofPacket;

verus! {

/// The two groups of column definitions of a prepare response.
#[derive(Clone, Copy, Debug, PartialEq, Eq, Structural)]
pub enum Group {
    Params,
    Results,
}

/// The packet of a prepare response at which a decode stopped.
#[derive(Clone, Copy, Debug, PartialEq, Eq, Structural)]
pub enum PrepareStep {
    /// The prepare-ok packet.
    Header,
    /// The parameter definition of this index, counted from 0.
    ParamDef(u16),
    /// The EOF packet behind the parameter definitions.
    ParamTerminator,
    /// The result column definition of this index, counted from 0.
    ResultDef(u16),
    /// The EOF packet behind the result column definitions.
    ResultTerminator,
}

/// Why no prepare response could be decoded: the first failure, and the
/// packet at which it came.
#[derive(Clone, Copy, Debug, PartialEq, Eq, Structural)]
pub struct PrepareError {
    pub step: PrepareStep,
    pub cause: DecodeError,
}

/// A whole prepare response.
#[derive(Clone, Debug, PartialEq, Eq)]
pub struct ComStmtPrepareResp {
    pub ok: ComStmtPrepareOk,
    /// The parameter definitions in the order they came; `None` if the
    /// statement has no parameter.
    pub param_defs: Option<Vec<ColumnDefPacket>>,
    /// The result column definitions in the order they came; `None` if the
    /// statement gives no result set.
    pub res_columns: Option<Vec<ColumnDefPacket>>,
}

/// A prepare response as a value of mathematics.
pub struct PrepareResponse {
    pub ok: ComStmtPrepareOk,
    pub param_defs: Option<Seq<ColumnDef>>,
    pub res_columns: Option<Seq<ColumnDef>>,
}

/// The definitions of `defs`, each as a value of mathematics.
pub open spec fn defs_view(defs: Seq<ColumnDefPacket>) -> Seq<ColumnDef> {
    defs.map_values(|d: ColumnDefPacket| d@)
}

/// The same for a group that may be absent.
pub open spec fn group_view(defs: Option<Vec<ColumnDefPacket>>) -> Option<Seq<ColumnDef>> {
    match defs {
        None => None,
        Some(v) => Some(defs_view(v@)),
    }
}

impl View for ComStmtPrepareResp {
    type V = PrepareResponse;

    open spec fn view(&self) -> PrepareResponse {
        PrepareResponse {
            ok: self.ok,
            param_defs: group_view(self.param_defs),
            res_columns: group_view(self.res_columns),
        }
    }
}

/// The step at which the definition of index `index` of `group` is read.
pub open spec fn def_step(group: Group, index: u16) -> PrepareStep {
    match group {
        Group::Params => PrepareStep::ParamDef(index),
        Group::Results => PrepareStep::ResultDef(index),
    }
}

/// The step at which the terminator of `group` is read.
pub open spec fn terminator_step(group: Group) -> PrepareStep {
    match group {
        Group::Params => PrepareStep::ParamTerminator,
        Group::Results => PrepareStep::ResultTerminator,
    }
}

/// The column definition in the packet at `pos`, and the position behind
/// that packet.
#[verifier::opaque]
pub open spec fn read_def(s: Seq<u8>, pos: int) -> Result<(ColumnDef, int), DecodeError> {
    match framer::next_packet(s, pos) {
        Err(e) => Err(e),
        Ok((packet, next)) => match messages::decode_column_def(packet.payload) {
            Err(e) => Err(e),
            Ok(def) => Ok((def, next)),
        },
    }
}

/// The position behind the EOF packet at `pos`.
#[verifier::opaque]
pub open spec fn read_terminator(s: Seq<u8>, pos: int) -> Result<int, DecodeError> {
    match framer::next_packet(s, pos) {
        Err(e) => Err(e),
        Ok((packet, next)) => match messages::decode_eof(packet.payload) {
            Err(e) => Err(e),
            Ok(_) => Ok(next),
        },
    }
}

/// The first `count` column definitions of the group that begins at `pos`,
/// one packet each, in the order of the stream, and the position behind
/// them; or the first failure among them.
pub open spec fn read_defs(s: Seq<u8>, pos: int, group: Group, count: nat) -> Result<
    (Seq<ColumnDef>, int),
    PrepareError,
>
    decreases count,
{
    if count == 0 {
        Ok((Seq::empty(), pos))
    } else {
        match read_defs(s, pos, group, (count - 1) as nat) {
            Err(e) => Err(e),
            Ok((defs, at)) => match read_def(s, at) {
                Err(cause) => Err(
                    PrepareError { step: def_step(group, (count - 1) as u16), cause },
                ),
                Ok((def, next)) => Ok((defs.push(def), next)),
            },
        }
    }
}

/// The group of `count` column definitions that begins at `pos`, and the
/// position behind it. A group of none is absent and takes no packet. Any
/// other is followed by an EOF packet unless `deprecate_eof` holds; the EOF
/// packet is checked and its content dropped.
pub open spec fn read_group(
    s: Seq<u8>,
    pos: int,
    group: Group,
    count: u16,
    deprecate_eof: bool,
) -> Result<(Option<Seq<ColumnDef>>, int), PrepareError> {
    if count == 0 {
        Ok((None, pos))
    } else {
        match read_defs(s, pos, group, count as nat) {
            Err(e) => Err(e),
            Ok((defs, at)) => if deprecate_eof {
                Ok((Some(defs), at))
            } else {
                match read_terminator(s, at) {
                    Err(cause) => Err(PrepareError { step: terminator_step(group), cause }),
                    Ok(next) => Ok((Some(defs), next)),
                }
            },
        }
    }
}

/// The prepare response that begins at `pos`, and the position behind its
/// last packet: the prepare-ok packet, the group of as many parameter
/// definitions as it announces, then the group of as many result column
/// definitions as it announces. The first failure ends the decode.
pub open spec fn read_prepare_response(s: Seq<u8>, pos: int, deprecate_eof: bool) -> Result<
    (PrepareResponse, int),
    PrepareError,
> {
    match framer::next_packet(s, pos) {
        Err(cause) => Err(PrepareError { step: PrepareStep::Header, cause }),
        Ok((packet, p0)) => match messages::decode_prepare_ok(packet.payload) {
            Err(cause) => Err(PrepareError { step: PrepareStep::Header, cause }),
            Ok(ok) => match read_group(s, p0, Group::Params, ok.params, deprecate_eof) {
                Err(e) => Err(e),
                Ok((param_defs, p1)) => match read_group(
                    s,
                    p1,
                    Group::Results,
                    ok.columns,
                    deprecate_eof,
                ) {
                    Err(e) => Err(e),
                    Ok((res_columns, p2)) => Ok(
                        (PrepareResponse { ok, param_defs, res_columns }, p2),
                    ),
                },
            },
        },
    }
}

/// A failure among the first definitions of a group is the failure of
/// every longer run of the group.
pub proof fn lemma_first_failure_stands(s: Seq<u8>, pos: int, group: Group, k: nat, count: nat)
    requires
        k <= count,
        read_defs(s, pos, group, k).is_err(),
    ensures
        read_defs(s, pos, group, count) == read_defs(s, pos, group, k),
    decreases count,
{
    if k < count {
        lemma_first_failure_stands(s, pos, group, k, (count - 1) as nat);
    }
}

fn step_of_def(group: Group, index: u16) -> (r: PrepareStep)
    ensures
        r == def_step(group, index),
{
    match group {
        Group::Params => PrepareStep::ParamDef(index),
        Group::Results => PrepareStep::ResultDef(index),
    }
}

fn step_of_terminator(group: Group) -> (r: PrepareStep)
    ensures
        r == terminator_step(group),
{
    match group {
        Group::Params => PrepareStep::ParamTerminator,
        Group::Results => PrepareStep::ResultTerminator,
    }
}

/// Reads one packet as a column definition. After a failure the framer may
/// stand behind the packet.
fn read_def_from(framer: &mut Framer, capabilities: &Capabilities) -> (r: Result<
    ColumnDefPacket,
    DecodeError,
>)
    ensures
        final(framer).bytes() == old(framer).bytes(),
        old(framer).offset() <= final(framer).offset(),
        match read_def(old(framer).bytes(), old(framer).offset()) {
            Ok((def, next)) => r.is_ok() && r.unwrap()@ == def && final(framer).offset() == next,
            Err(e) => r == Err::<ColumnDefPacket, DecodeError>(e),
        },
{
    proof {
        reveal(read_def);
        framer::lemma_next_packet_advances(framer.bytes(), framer.offset());
    }
    let packet = framer.next_packet()?;
    ColumnDefPacket::decode(packet.payload.as_slice(), capabilities)
}

/// Reads one packet as the EOF terminator of a group and drops what it
/// holds. After a failure the framer may stand behind the packet.
fn read_terminator_from(framer: &mut Framer, capabilities: &Capabilities) -> (r: Result<
    (),
    DecodeError,
>)
    ensures
        final(framer).bytes() == old(framer).bytes(),
        old(framer).offset() <= final(framer).offset(),
        match read_terminator(old(framer).bytes(), old(framer).offset()) {
            Ok(next) => r.is_ok() && final(framer).offset() == next,
            Err(e) => r == Err::<(), DecodeError>(e),
        },
{
    proof {
        reveal(read_terminator);
        framer::lemma_next_packet_advances(framer.bytes(), framer.offset());
    }
    let packet = framer.next_packet()?;
    match EofPacket::decode(packet.payload.as_slice(), capabilities) {
        Ok(_) => Ok(()),
        Err(e) => Err(e),
    }
}

/// Reads one group of column definitions, with its terminator where the
/// capabilities ask for one. After a failure the position of the framer is
/// somewhere inside the group.
fn read_group_from(
    framer: &mut Framer,
    capabilities: &Capabilities,
    group: Group,
    count: u16,
) -> (r: Result<Option<Vec<ColumnDefPacket>>, PrepareError>)
    ensures
        final(framer).bytes() == old(framer).bytes(),
        old(framer).offset() <= final(framer).offset(),
        match read_group(
            old(framer).bytes(),
            old(framer).offset(),
            group,
            count,
            capabilities.deprecate_eof(),
        ) {
            Ok((defs, end)) => r.is_ok() && group_view(r.unwrap()) == defs && final(framer).offset() == end,
            Err(e) => r == Err::<Option<Vec<ColumnDefPacket>>, PrepareError>(e),
        },
{
    if count == 0 {
        return Ok(None);
    }
    let ghost s = framer.bytes();
    let ghost start = framer.offset();
    let mut defs: Vec<ColumnDefPacket> = Vec::new();
    let mut i: u16 = 0;
    assert(defs_view(defs@) =~= Seq::<ColumnDef>::empty());
    while i < count
        invariant
            i <= count,
            s == old(framer).bytes(),
            start == old(framer).offset(),
            framer.bytes() == s,
            start <= framer.offset(),
            read_defs(s, start, group, i as nat) == Ok::<(Seq<ColumnDef>, int), PrepareError>(
                (defs_view(defs@), framer.offset()),
            ),
        decreases count - i,
    {
        let def = match read_def_from(framer, capabilities) {
            Ok(def) => def,
            Err(cause) => {
                proof {
                    lemma_first_failure_stands(s, start, group, (i + 1) as nat, count as nat);
                }
                return Err(PrepareError { step: step_of_def(group, i), cause });
            },
        };
        let ghost before = defs@;
        defs.push(def);
        assert(defs_view(defs@) =~= defs_view(before).push(def@));
        i = i + 1;
    }
    if !capabilities.has_deprecate_eof() {
        match read_terminator_from(framer, capabilities) {
            Ok(_) => {},
            Err(cause) => {
                return Err(PrepareError { step: step_of_terminator(group), cause });
            },
        }
    }
    Ok(Some(defs))
}

impl Default for ComStmtPrepareResp {
    /// The response to a statement without id, parameters or columns.
    fn default() -> (r: ComStmtPrepareResp)
        ensures
            r@ == (PrepareResponse {
                ok: ComStmtPrepareOk { statement_id: 0, columns: 0, params: 0, warnings: 0 },
                param_defs: None,
                res_columns: None,
            }),
    {
        ComStmtPrepareResp {
            ok: ComStmtPrepareOk { statement_id: 0, columns: 0, params: 0, warnings: 0 },
            param_defs: None,
            res_columns: None,
        }
    }
}

impl ComStmtPrepareResp {
    /// Decodes one prepare response from the packets that `framer` gives, and
    /// leaves `framer` behind the last packet of the response. After a
    /// failure nothing has been consumed and no part of a response is
    /// returned.
    pub fn deserialize(framer: &mut Framer, capabilities: &Capabilities) -> (r: Result<
        ComStmtPrepareResp,
        PrepareError,
    >)
        ensures
            final(framer).bytes() == old(framer).bytes(),
            match read_prepare_response(
                old(framer).bytes(),
                old(framer).offset(),
                capabilities.deprecate_eof(),
            ) {
                Ok((response, end)) => r.is_ok() && r.unwrap()@ == response && final(framer).offset() == end,
                Err(e) => r == Err::<ComStmtPrepareResp, PrepareError>(e) && final(framer).offset() == old(framer).offset(),
            },
    {
        let start = framer.position();
        proof {
            framer::lemma_next_packet_advances(framer.bytes(), framer.offset());
        }
        let packet = match framer.next_packet() {
            Ok(packet) => packet,
            Err(cause) => {
                return Err(PrepareError { step: PrepareStep::Header, cause });
            },
        };
        let ok = match ComStmtPrepareOk::decode(packet.payload.as_slice(), capabilities) {
            Ok(ok) => ok,
            Err(cause) => {
                framer.rewind(start);
                return Err(PrepareError { step: PrepareStep::Header, cause });
            },
        };
        let param_defs = match read_group_from(framer, capabilities, Group::Params, ok.params) {
            Ok(defs) => defs,
            Err(e) => {
                framer.rewind(start);
                return Err(e);
            },
        };
        let res_columns = match read_group_from(framer, capabilities, Group::Results, ok.columns) {
            Ok(defs) => defs,
            Err(e) => {
                framer.rewind(start);
                return Err(e);
            },
        };
        Ok(ComStmtPrepareResp { ok, param_defs, res_columns })
    }
}

/// A column definition takes a packet: it ends four bytes or more behind
/// the position where it begins.
pub proof fn lemma_def_advances(s: Seq<u8>, pos: int)
    requires
        read_def(s, pos).is_ok(),
    ensures
        pos + 4 <= read_def(s, pos).unwrap().1 <= s.len(),
{
    reveal(read_def);
    framer::lemma_next_packet_advances(s, pos);
}

/// A run of `count` definitions has `count` members and takes a packet for
/// each: it ends at least four bytes further on for every member.
pub proof fn lemma_defs_run(s: Seq<u8>, pos: int, group: Group, count: nat)
    requires
        read_defs(s, pos, group, count).is_ok(),
    ensures
        read_defs(s, pos, group, count).unwrap().0.len() == count,
        pos + 4 * count <= read_defs(s, pos, group, count).unwrap().1,
    decreases count,
{
    if count > 0 {
        lemma_defs_run(s, pos, group, (count - 1) as nat);
        let at = read_defs(s, pos, group, (count - 1) as nat).unwrap().1;
        lemma_def_advances(s, at);
    }
}

/// The definitions of a group stand in the order in which their packets
/// came: the first `k` definitions of a run are the run of `k`, which ends
/// before the packets of the later ones begin.
pub proof fn lemma_defs_in_arrival_order(
    s: Seq<u8>,
    pos: int,
    group: Group,
    k: nat,
    count: nat,
)
    requires
        k <= count,
        read_defs(s, pos, group, count).is_ok(),
    ensures
        read_defs(s, pos, group, k).is_ok(),
        read_defs(s, pos, group, k).unwrap().0 == read_defs(s, pos, group, count).unwrap().0.take(
            k as int,
        ),
        read_defs(s, pos, group, k).unwrap().1 <= read_defs(s, pos, group, count).unwrap().1,
        k < count ==> read_def(s, read_defs(s, pos, group, k).unwrap().1).is_ok() && read_def(
            s,
            read_defs(s, pos, group, k).unwrap().1,
        ).unwrap().0 == read_defs(s, pos, group, count).unwrap().0[k as int],
    decreases count,
{
    lemma_defs_run(s, pos, group, count);
    if k < count {
        let shorter = (count - 1) as nat;
        lemma_defs_in_arrival_order(s, pos, group, k, shorter);
        lemma_defs_run(s, pos, group, shorter);
        let defs = read_defs(s, pos, group, shorter).unwrap().0;
        let at = read_defs(s, pos, group, shorter).unwrap().1;
        let def = read_def(s, at).unwrap().0;
        assert(read_defs(s, pos, group, count) == Ok::<(Seq<ColumnDef>, int), PrepareError>(
            (defs.push(def), read_def(s, at).unwrap().1),
        ));
        assert(defs.push(def).take(k as int) =~= defs.take(k as int));
        lemma_def_advances(s, at);
        if k == shorter {
            assert(defs.take(k as int) =~= defs);
            assert(defs.push(def)[k as int] == def);
        }
    } else {
        let defs = read_defs(s, pos, group, count).unwrap().0;
        assert(defs.take(count as int) =~= defs);
    }
}

/// A group is present exactly if it has members, and then it has as many
/// as were announced; it ends where it began exactly if it is absent.
pub proof fn lemma_group_shape(
    s: Seq<u8>,
    pos: int,
    group: Group,
    count: u16,
    deprecate_eof: bool,
)
    requires
        read_group(s, pos, group, count, deprecate_eof).is_ok(),
    ensures
        read_group(s, pos, group, count, deprecate_eof).unwrap().0.is_some() <==> count > 0,
        count > 0 ==> read_group(s, pos, group, count, deprecate_eof).unwrap().0.unwrap().len()
            == count,
        count == 0 ==> read_group(s, pos, group, count, deprecate_eof).unwrap().1 == pos,
        count > 0 ==> pos < read_group(s, pos, group, count, deprecate_eof).unwrap().1,
{
    if count > 0 {
        lemma_defs_run(s, pos, group, count as nat);
        if !deprecate_eof {
            reveal(read_terminator);
            framer::lemma_next_packet_advances(
                s,
                read_defs(s, pos, group, count as nat).unwrap().1,
            );
        }
    }
}

/// A response without parameters and without result columns is its
/// prepare-ok packet and nothing else: both groups are absent and exactly
/// one packet is consumed, whatever the capabilities.
pub proof fn lemma_empty_groups_take_no_packet(s: Seq<u8>, pos: int, deprecate_eof: bool)
    requires
        framer::next_packet(s, pos).is_ok(),
        messages::decode_prepare_ok(framer::next_packet(s, pos).unwrap().0.payload).is_ok(),
        messages::decode_prepare_ok(framer::next_packet(s, pos).unwrap().0.payload).unwrap().params
            == 0,
        messages::decode_prepare_ok(
            framer::next_packet(s, pos).unwrap().0.payload,
        ).unwrap().columns == 0,
    ensures
        read_prepare_response(s, pos, deprecate_eof) == Ok::<(PrepareResponse, int), PrepareError>(
            (
                PrepareResponse {
                    ok: messages::decode_prepare_ok(
                        framer::next_packet(s, pos).unwrap().0.payload,
                    ).unwrap(),
                    param_defs: None,
                    res_columns: None,
                },
                framer::next_packet(s, pos).unwrap().1,
            ),
        ),
{
}

/// In a decoded response the parameters come first: the group of parameter
/// definitions is read from the packets directly behind the prepare-ok
/// packet, and the group of result column definitions from the packets
/// behind that group, up to the end of the response. Each group is present
/// exactly if the prepare-ok packet announces members for it.
pub proof fn lemma_params_precede_results(s: Seq<u8>, pos: int, deprecate_eof: bool)
    requires
        read_prepare_response(s, pos, deprecate_eof).is_ok(),
    ensures
        ({
            let response = read_prepare_response(s, pos, deprecate_eof).unwrap().0;
            let end = read_prepare_response(s, pos, deprecate_eof).unwrap().1;
            let p0 = framer::next_packet(s, pos).unwrap().1;
            let params = read_group(s, p0, Group::Params, response.ok.params, deprecate_eof);
            &&& framer::next_packet(s, pos).is_ok()
            &&& messages::decode_prepare_ok(framer::next_packet(s, pos).unwrap().0.payload) == Ok::<
                ComStmtPrepareOk,
                DecodeError,
            >(response.ok)
            &&& params.is_ok()
            &&& params.unwrap().0 == response.param_defs
            &&& pos < p0 <= params.unwrap().1 <= end
            &&& read_group(
                s,
                params.unwrap().1,
                Group::Results,
                response.ok.columns,
                deprecate_eof,
            ) == Ok::<(Option<Seq<ColumnDef>>, int), PrepareError>((response.res_columns, end))
            &&& response.param_defs.is_some() <==> response.ok.params > 0
            &&& response.res_columns.is_some() <==> response.ok.columns > 0
        }),
{
    framer::lemma_next_packet_advances(s, pos);
    let response = read_prepare_response(s, pos, deprecate_eof).unwrap().0;
    let p0 = framer::next_packet(s, pos).unwrap().1;
    lemma_group_shape(s, p0, Group::Params, response.ok.params, deprecate_eof);
    let p1 = read_group(s, p0, Group::Params, response.ok.params, deprecate_eof).unwrap().1;
    lemma_group_shape(s, p1, Group::Results, response.ok.columns, deprecate_eof);
}

} // verus!
