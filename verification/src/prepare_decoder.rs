//! The prepare response, decoded packet by packet.
//!
//! A caller that has to wait for each packet cannot hand over the whole
//! stream. It asks the decoder which packet comes next, fetches one, hands
//! its payload over, and goes on until the decoder expects nothing more.

use vstd::prelude::*;
use crate::capabilities::Capabilities;
use crate::com_stmt_prepare_resp::def_step;
use crate::com_stmt_prepare_resp::defs_view;
use crate::com_stmt_prepare_resp::lemma_first_failure_stands;
use crate::com_stmt_prepare_resp::read_def;
use crate::com_stmt_prepare_resp::read_defs;
use crate::com_stmt_prepare_resp::read_group;
use crate::com_stmt_prepare_resp::read_prepare_response;
use crate::com_stmt_prepare_resp::read_terminator;
use crate::com_stmt_prepare_resp::terminator_step;
use crate::com_stmt_prepare_resp::Group;
use crate::framer;
use crate::com_stmt_prepare_resp::ComStmtPrepareResp;
use crate::com_stmt_prepare_resp::PrepareError;
use crate::com_stmt_prepare_resp::PrepareResponse;
use crate::com_stmt_prepare_resp::PrepareStep;
use crate::messages;
use crate::messages::ColumnDef;
use crate::messages::ColumnDefPacket;
use crate::messages::ComStmtPrepareOk;
use crate::messages::EofPacket;

verus! {

/// How far a decode has come.
pub struct Progress {
    /// Whether groups have no EOF packet behind them.
    pub deprecate_eof: bool,
    /// The packet that is expected next; `None` when the response is
    /// complete.
    pub next: Option<PrepareStep>,
    /// The prepare-ok packet, once it has come.
    pub ok: ComStmtPrepareOk,
    /// The parameter definitions that have come.
    pub param_defs: Seq<ColumnDef>,
    /// The result column definitions that have come.
    pub res_columns: Seq<ColumnDef>,
}

/// What is expected behind the parameter group.
pub open spec fn after_params(ok: ComStmtPrepareOk) -> Option<PrepareStep> {
    if ok.columns > 0 {
        Some(PrepareStep::ResultDef(0))
    } else {
        None
    }
}

/// What is expected behind the prepare-ok packet.
pub open spec fn after_header(ok: ComStmtPrepareOk) -> Option<PrepareStep> {
    if ok.params > 0 {
        Some(PrepareStep::ParamDef(0))
    } else {
        after_params(ok)
    }
}

/// The state before the first packet.
pub open spec fn initial(deprecate_eof: bool) -> Progress {
    Progress {
        deprecate_eof,
        next: Some(PrepareStep::Header),
        ok: ComStmtPrepareOk { statement_id: 0, columns: 0, params: 0, warnings: 0 },
        param_defs: Seq::empty(),
        res_columns: Seq::empty(),
    }
}

/// The state after the packet with this payload has come in state `p`, or
/// the failure that the packet brings. A complete response takes no packet:
/// its state stays as it is.
pub open spec fn accept(p: Progress, payload: Seq<u8>) -> Result<Progress, PrepareError> {
    match p.next {
        None => Ok(p),
        Some(PrepareStep::Header) => match messages::decode_prepare_ok(payload) {
            Err(cause) => Err(PrepareError { step: PrepareStep::Header, cause }),
            Ok(ok) => Ok(Progress { ok, next: after_header(ok), ..p }),
        },
        Some(PrepareStep::ParamDef(i)) => match messages::decode_column_def(payload) {
            Err(cause) => Err(PrepareError { step: PrepareStep::ParamDef(i), cause }),
            Ok(def) => Ok(
                Progress {
                    param_defs: p.param_defs.push(def),
                    next: if i + 1 < p.ok.params {
                        Some(PrepareStep::ParamDef((i + 1) as u16))
                    } else if p.deprecate_eof {
                        after_params(p.ok)
                    } else {
                        Some(PrepareStep::ParamTerminator)
                    },
                    ..p
                },
            ),
        },
        Some(PrepareStep::ParamTerminator) => match messages::decode_eof(payload) {
            Err(cause) => Err(PrepareError { step: PrepareStep::ParamTerminator, cause }),
            Ok(_) => Ok(Progress { next: after_params(p.ok), ..p }),
        },
        Some(PrepareStep::ResultDef(i)) => match messages::decode_column_def(payload) {
            Err(cause) => Err(PrepareError { step: PrepareStep::ResultDef(i), cause }),
            Ok(def) => Ok(
                Progress {
                    res_columns: p.res_columns.push(def),
                    next: if i + 1 < p.ok.columns {
                        Some(PrepareStep::ResultDef((i + 1) as u16))
                    } else if p.deprecate_eof {
                        None
                    } else {
                        Some(PrepareStep::ResultTerminator)
                    },
                    ..p
                },
            ),
        },
        Some(PrepareStep::ResultTerminator) => match messages::decode_eof(payload) {
            Err(cause) => Err(PrepareError { step: PrepareStep::ResultTerminator, cause }),
            Ok(_) => Ok(Progress { next: None, ..p }),
        },
    }
}

/// The response that a state holds: a group is present if the prepare-ok
/// packet announced members for it.
pub open spec fn response_of(p: Progress) -> PrepareResponse {
    PrepareResponse {
        ok: p.ok,
        param_defs: if p.ok.params > 0 {
            Some(p.param_defs)
        } else {
            None
        },
        res_columns: if p.ok.columns > 0 {
            Some(p.res_columns)
        } else {
            None
        },
    }
}

/// A decode of one prepare response that takes its packets one at a time.
pub struct PrepareDecoder {
    deprecate_eof: bool,
    next: Option<PrepareStep>,
    ok: ComStmtPrepareOk,
    param_defs: Vec<ColumnDefPacket>,
    res_columns: Vec<ColumnDefPacket>,
}

impl View for PrepareDecoder {
    type V = Progress;

    closed spec fn view(&self) -> Progress {
        Progress {
            deprecate_eof: self.deprecate_eof,
            next: self.next,
            ok: self.ok,
            param_defs: defs_view(self.param_defs@),
            res_columns: defs_view(self.res_columns@),
        }
    }
}

impl PrepareDecoder {
    /// A decoder that expects the prepare-ok packet.
    pub fn new(capabilities: &Capabilities) -> (d: PrepareDecoder)
        ensures
            d@ == initial(capabilities.deprecate_eof()),
    {
        let d = PrepareDecoder {
            deprecate_eof: capabilities.has_deprecate_eof(),
            next: Some(PrepareStep::Header),
            ok: ComStmtPrepareOk { statement_id: 0, columns: 0, params: 0, warnings: 0 },
            param_defs: Vec::new(),
            res_columns: Vec::new(),
        };
        assert(d@.param_defs =~= Seq::<ColumnDef>::empty());
        assert(d@.res_columns =~= Seq::<ColumnDef>::empty());
        d
    }

    /// The packet that has to be fetched next, or `None` if the response is
    /// complete.
    pub fn expects(&self) -> (r: Option<PrepareStep>)
        ensures
            r == self@.next,
    {
        self.next
    }

    /// Whether the response is complete.
    pub fn is_complete(&self) -> (r: bool)
        ensures
            r == self@.next.is_none(),
    {
        self.next.is_none()
    }

    /// Takes the payload of the packet that was expected. After a failure
    /// the decoder is as it was; the decode cannot go on, since the stream
    /// can no longer be trusted.
    pub fn accept(&mut self, payload: &[u8], capabilities: &Capabilities) -> (r: Result<
        (),
        PrepareError,
    >)
        ensures
            match accept(old(self)@, payload@) {
                Ok(p) => r.is_ok() && final(self)@ == p,
                Err(e) => r == Err::<(), PrepareError>(e) && final(self)@ == old(self)@,
            },
    {
        match self.next {
            None => Ok(()),
            Some(PrepareStep::Header) => {
                match ComStmtPrepareOk::decode(payload, capabilities) {
                    Err(cause) => Err(PrepareError { step: PrepareStep::Header, cause }),
                    Ok(ok) => {
                        self.ok = ok;
                        self.next = if ok.params > 0 {
                            Some(PrepareStep::ParamDef(0))
                        } else if ok.columns > 0 {
                            Some(PrepareStep::ResultDef(0))
                        } else {
                            None
                        };
                        Ok(())
                    },
                }
            },
            Some(PrepareStep::ParamDef(i)) => {
                match ColumnDefPacket::decode(payload, capabilities) {
                    Err(cause) => Err(PrepareError { step: PrepareStep::ParamDef(i), cause }),
                    Ok(def) => {
                        let ghost before = self.param_defs@;
                        self.param_defs.push(def);
                        assert(defs_view(self.param_defs@) =~= defs_view(before).push(def@));
                        self.next = if i < u16::MAX && i + 1 < self.ok.params {
                            Some(PrepareStep::ParamDef(i + 1))
                        } else if !self.deprecate_eof {
                            Some(PrepareStep::ParamTerminator)
                        } else if self.ok.columns > 0 {
                            Some(PrepareStep::ResultDef(0))
                        } else {
                            None
                        };
                        Ok(())
                    },
                }
            },
            Some(PrepareStep::ParamTerminator) => {
                match EofPacket::decode(payload, capabilities) {
                    Err(cause) => Err(PrepareError { step: PrepareStep::ParamTerminator, cause }),
                    Ok(_) => {
                        self.next = if self.ok.columns > 0 {
                            Some(PrepareStep::ResultDef(0))
                        } else {
                            None
                        };
                        Ok(())
                    },
                }
            },
            Some(PrepareStep::ResultDef(i)) => {
                match ColumnDefPacket::decode(payload, capabilities) {
                    Err(cause) => Err(PrepareError { step: PrepareStep::ResultDef(i), cause }),
                    Ok(def) => {
                        let ghost before = self.res_columns@;
                        self.res_columns.push(def);
                        assert(defs_view(self.res_columns@) =~= defs_view(before).push(def@));
                        self.next = if i < u16::MAX && i + 1 < self.ok.columns {
                            Some(PrepareStep::ResultDef(i + 1))
                        } else if !self.deprecate_eof {
                            Some(PrepareStep::ResultTerminator)
                        } else {
                            None
                        };
                        Ok(())
                    },
                }
            },
            Some(PrepareStep::ResultTerminator) => {
                match EofPacket::decode(payload, capabilities) {
                    Err(cause) => Err(
                        PrepareError { step: PrepareStep::ResultTerminator, cause },
                    ),
                    Ok(_) => {
                        self.next = None;
                        Ok(())
                    },
                }
            },
        }
    }

    /// The response, if it is complete. Of an unfinished decode no part is
    /// given out.
    pub fn finish(self) -> (r: Option<ComStmtPrepareResp>)
        ensures
            match r {
                Some(response) => self@.next.is_none() && response@ == response_of(self@),
                None => self@.next.is_some(),
            },
    {
        if self.next.is_some() {
            return None;
        }
        let param_defs = if self.ok.params > 0 {
            Some(self.param_defs)
        } else {
            None
        };
        let res_columns = if self.ok.columns > 0 {
            Some(self.res_columns)
        } else {
            None
        };
        Some(ComStmtPrepareResp { ok: self.ok, param_defs, res_columns })
    }
}

/// The state in which a decode ends when it takes its packets from the
/// stream `s`, beginning at `pos` in state `p`, and the position behind the
/// last packet it took; or the failure at which it stops, a failure to
/// fetch a packet being laid to the packet that was expected.
pub open spec fn run(p: Progress, s: Seq<u8>, pos: int) -> Result<(Progress, int), PrepareError>
    decreases s.len() - pos,
    via run_decreases
{
    match p.next {
        None => Ok((p, pos)),
        Some(step) => match framer::next_packet(s, pos) {
            Err(cause) => Err(PrepareError { step, cause }),
            Ok((packet, next)) => match accept(p, packet.payload) {
                Err(e) => Err(e),
                Ok(q) => run(q, s, next),
            },
        },
    }
}

#[via_fn]
proof fn run_decreases(p: Progress, s: Seq<u8>, pos: int) {
    framer::lemma_next_packet_advances(s, pos);
}

/// The number of members that the prepare-ok packet announces for a group.
spec fn announced(ok: ComStmtPrepareOk, group: Group) -> u16 {
    match group {
        Group::Params => ok.params,
        Group::Results => ok.columns,
    }
}

/// The definitions of a group that have come.
spec fn defs_of(p: Progress, group: Group) -> Seq<ColumnDef> {
    match group {
        Group::Params => p.param_defs,
        Group::Results => p.res_columns,
    }
}

/// What is expected behind a group.
spec fn after_group(ok: ComStmtPrepareOk, group: Group) -> Option<PrepareStep> {
    match group {
        Group::Params => after_params(ok),
        Group::Results => None,
    }
}

/// What is expected behind the last definition of a group.
spec fn after_defs(p: Progress, group: Group) -> Option<PrepareStep> {
    if p.deprecate_eof {
        after_group(p.ok, group)
    } else {
        Some(terminator_step(group))
    }
}

/// The state `p` with other definitions for a group and another
/// expectation.
spec fn with_group(
    p: Progress,
    group: Group,
    defs: Seq<ColumnDef>,
    next: Option<PrepareStep>,
) -> Progress {
    match group {
        Group::Params => Progress { param_defs: defs, next, ..p },
        Group::Results => Progress { res_columns: defs, next, ..p },
    }
}

/// What is expected behind the definition of index `i` of a group.
spec fn after_def(p: Progress, group: Group, i: u16) -> Option<PrepareStep> {
    if i + 1 < announced(p.ok, group) {
        Some(def_step(group, (i + 1) as u16))
    } else {
        after_defs(p, group)
    }
}

/// From a state that expects a definition, the decode takes one packet as
/// `read_def` says and goes on behind it.
proof fn lemma_run_def(p: Progress, s: Seq<u8>, pos: int, group: Group, i: u16)
    requires
        p.next == Some(def_step(group, i)),
    ensures
        match read_def(s, pos) {
            Err(cause) => run(p, s, pos) == Err::<(Progress, int), PrepareError>(
                PrepareError { step: def_step(group, i), cause },
            ),
            Ok((def, next)) => run(p, s, pos) == run(
                with_group(p, group, defs_of(p, group).push(def), after_def(p, group, i)),
                s,
                next,
            ),
        },
{
    reveal(read_def);
    match framer::next_packet(s, pos) {
        Err(cause) => {},
        Ok((packet, next)) => {
            match group {
                Group::Params => {
                    assert(p.next == Some(PrepareStep::ParamDef(i)));
                },
                Group::Results => {
                    assert(p.next == Some(PrepareStep::ResultDef(i)));
                },
            }
        },
    }
}

/// From a state within the definitions of a group, the decode goes on as
/// `read_defs` says: it fails where the run of definitions fails, and else
/// arrives behind the last definition with all of them.
proof fn lemma_run_defs(p: Progress, s: Seq<u8>, start: int, pos: int, group: Group, i: u16)
    requires
        p.next == Some(def_step(group, i)),
        i < announced(p.ok, group),
        read_defs(s, start, group, i as nat) == Ok::<(Seq<ColumnDef>, int), PrepareError>(
            (defs_of(p, group), pos),
        ),
    ensures
        match read_defs(s, start, group, announced(p.ok, group) as nat) {
            Err(e) => run(p, s, pos) == Err::<(Progress, int), PrepareError>(e),
            Ok((defs, at)) => run(p, s, pos) == run(
                with_group(p, group, defs, after_defs(p, group)),
                s,
                at,
            ),
        },
    decreases announced(p.ok, group) - i,
{
    let n = announced(p.ok, group);
    lemma_run_def(p, s, pos, group, i);
    match read_def(s, pos) {
        Err(cause) => {
            assert(read_defs(s, start, group, (i + 1) as nat) == Err::<
                (Seq<ColumnDef>, int),
                PrepareError,
            >(PrepareError { step: def_step(group, i), cause }));
            lemma_first_failure_stands(s, start, group, (i + 1) as nat, n as nat);
        },
        Ok((def, next)) => {
            let q = with_group(p, group, defs_of(p, group).push(def), after_def(p, group, i));
            assert(read_defs(s, start, group, (i + 1) as nat) == Ok::<
                (Seq<ColumnDef>, int),
                PrepareError,
            >((defs_of(p, group).push(def), next)));
            if i + 1 < n {
                lemma_run_defs(q, s, start, next, group, (i + 1) as u16);
                match read_defs(s, start, group, n as nat) {
                    Err(e) => {},
                    Ok((defs, at)) => {
                        assert(with_group(q, group, defs, after_defs(q, group)) == with_group(
                            p,
                            group,
                            defs,
                            after_defs(p, group),
                        ));
                    },
                }
            }
        },
    }
}

/// From the first definition of a group that has members, the decode goes
/// on as `read_group` says: it fails where the group fails, and else
/// arrives behind the group with all of its definitions.
proof fn lemma_run_group(p: Progress, s: Seq<u8>, pos: int, group: Group)
    requires
        p.next == Some(def_step(group, 0)),
        0 < announced(p.ok, group),
        defs_of(p, group) == Seq::<ColumnDef>::empty(),
    ensures
        match read_group(s, pos, group, announced(p.ok, group), p.deprecate_eof) {
            Err(e) => run(p, s, pos) == Err::<(Progress, int), PrepareError>(e),
            Ok((defs, end)) => defs.is_some() && run(p, s, pos) == run(
                with_group(p, group, defs.unwrap(), after_group(p.ok, group)),
                s,
                end,
            ),
        },
{
    let n = announced(p.ok, group);
    lemma_run_defs(p, s, pos, pos, group, 0);
    match read_defs(s, pos, group, n as nat) {
        Err(e) => {},
        Ok((defs, at)) => {
            let q = with_group(p, group, defs, after_defs(p, group));
            if !p.deprecate_eof {
                reveal(read_terminator);
                match read_terminator(s, at) {
                    Err(cause) => {},
                    Ok(end) => {
                        let packet = framer::next_packet(s, at).unwrap().0;
                        assert(accept(q, packet.payload) == Ok::<Progress, PrepareError>(
                            with_group(p, group, defs, after_group(p.ok, group)),
                        ));
                    },
                }
            }
        },
    }
}

/// Taking the packets one at a time decodes the same response as reading
/// the stream in one go: the same failure where there is one, and else the
/// same response, complete, with the same number of bytes consumed.
pub proof fn lemma_stepwise_decode_agrees(s: Seq<u8>, pos: int, deprecate_eof: bool)
    ensures
        match read_prepare_response(s, pos, deprecate_eof) {
            Err(e) => run(initial(deprecate_eof), s, pos) == Err::<(Progress, int), PrepareError>(
                e,
            ),
            Ok((response, end)) => {
                &&& run(initial(deprecate_eof), s, pos).is_ok()
                &&& run(initial(deprecate_eof), s, pos).unwrap().0.next.is_none()
                &&& response_of(run(initial(deprecate_eof), s, pos).unwrap().0) == response
                &&& run(initial(deprecate_eof), s, pos).unwrap().1 == end
            },
        },
{
    let p0 = initial(deprecate_eof);
    match framer::next_packet(s, pos) {
        Err(cause) => {},
        Ok((packet, at0)) => {
            match messages::decode_prepare_ok(packet.payload) {
                Err(cause) => {},
                Ok(ok) => {
                    let p1 = accept(p0, packet.payload).unwrap();
                    assert(run(p0, s, pos) == run(p1, s, at0));
                    if ok.params > 0 {
                        lemma_run_group(p1, s, at0, Group::Params);
                    }
                    match read_group(s, at0, Group::Params, ok.params, deprecate_eof) {
                        Err(e) => {},
                        Ok((param_defs, at1)) => {
                            let p2 = if ok.params > 0 {
                                with_group(
                                    p1,
                                    Group::Params,
                                    param_defs.unwrap(),
                                    after_params(ok),
                                )
                            } else {
                                p1
                            };
                            assert(run(p1, s, at0) == run(p2, s, at1));
                            if ok.columns > 0 {
                                lemma_run_group(p2, s, at1, Group::Results);
                            }
                        },
                    }
                },
            }
        },
    }
}

} // verus!
