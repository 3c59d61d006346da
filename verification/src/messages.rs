//! Decoders of single packets: the prepare-ok header, a column definition
//! and the EOF terminator. Each is a function of the payload alone.

use vstd::prelude::*;
use crate::capabilities::Capabilities;
use crate::cursor::ByteCursor;
use crate::error::DecodeError;
use crate::wire;

verus! {

/// The first byte of a prepare-ok packet.
pub const PREPARE_OK_HEADER: u8 = 0x00;

/// The first byte of an EOF packet.
pub const EOF_HEADER: u8 = 0xFE;

/// The length of a prepare-ok packet: marker, statement id, two counts, a
/// reserved byte and the warning count.
pub const PREPARE_OK_LEN: usize = 12;

/// The length of an EOF packet: marker, warning count and server status.
pub const EOF_LEN: usize = 5;

/// The bytes of a column definition behind its length-encoded fields:
/// character set, column size, field type, flags, decimals and two reserved
/// bytes.
pub const COLUMN_DEF_FIXED_LEN: usize = 12;

/// The first packet of the answer to a prepare request.
#[derive(Clone, Copy, Debug, PartialEq, Eq, Structural)]
pub struct ComStmtPrepareOk {
    pub statement_id: u32,
    /// The number of columns of the result set, 0 if there is none.
    pub columns: u16,
    /// The number of `?` placeholders.
    pub params: u16,
    pub warnings: u16,
}

/// The terminator of a group of column definitions under the older
/// protocol.
#[derive(Clone, Copy, Debug, PartialEq, Eq, Structural)]
pub struct EofPacket {
    pub warnings: u16,
    pub status: u16,
}

/// The description of one parameter or one result column. Names are kept
/// as the bytes that came, valid UTF-8 or not.
#[derive(Clone, Debug, PartialEq, Eq)]
pub struct ColumnDefPacket {
    pub catalog: Vec<u8>,
    pub schema: Vec<u8>,
    pub table_alias: Vec<u8>,
    pub table: Vec<u8>,
    pub column_alias: Vec<u8>,
    pub column: Vec<u8>,
    /// The announced length of the fixed fields; `None` is the wire's NULL.
    pub fixed_fields_length: Option<u64>,
    pub character_set: u16,
    pub column_size: u32,
    pub field_type: u8,
    pub flags: u16,
    pub decimals: u8,
}

/// A column definition as a value of mathematics.
pub struct ColumnDef {
    pub catalog: Seq<u8>,
    pub schema: Seq<u8>,
    pub table_alias: Seq<u8>,
    pub table: Seq<u8>,
    pub column_alias: Seq<u8>,
    pub column: Seq<u8>,
    pub fixed_fields_length: Option<u64>,
    pub character_set: u16,
    pub column_size: u32,
    pub field_type: u8,
    pub flags: u16,
    pub decimals: u8,
}

impl View for ColumnDefPacket {
    type V = ColumnDef;

    open spec fn view(&self) -> ColumnDef {
        ColumnDef {
            catalog: self.catalog@,
            schema: self.schema@,
            table_alias: self.table_alias@,
            table: self.table@,
            column_alias: self.column_alias@,
            column: self.column@,
            fixed_fields_length: self.fixed_fields_length,
            character_set: self.character_set,
            column_size: self.column_size,
            field_type: self.field_type,
            flags: self.flags,
            decimals: self.decimals,
        }
    }
}

/// The prepare-ok packet that `s` holds. Bytes behind the twelfth are not
/// looked at.
pub open spec fn decode_prepare_ok(s: Seq<u8>) -> Result<ComStmtPrepareOk, DecodeError> {
    if s.len() < 1 {
        Err(DecodeError::Truncated)
    } else if s[0] != PREPARE_OK_HEADER {
        Err(DecodeError::UnexpectedHeader { expected: PREPARE_OK_HEADER, found: s[0] })
    } else if s.len() < PREPARE_OK_LEN {
        Err(DecodeError::Truncated)
    } else {
        Ok(
            ComStmtPrepareOk {
                statement_id: wire::read_u32(s, 1).unwrap().0,
                columns: wire::read_u16(s, 5).unwrap().0,
                params: wire::read_u16(s, 7).unwrap().0,
                warnings: wire::read_u16(s, 10).unwrap().0,
            },
        )
    }
}

/// The EOF packet that `s` holds. Bytes behind the fifth are not looked at.
pub open spec fn decode_eof(s: Seq<u8>) -> Result<EofPacket, DecodeError> {
    if s.len() < 1 {
        Err(DecodeError::Truncated)
    } else if s[0] != EOF_HEADER {
        Err(DecodeError::UnexpectedHeader { expected: EOF_HEADER, found: s[0] })
    } else if s.len() < EOF_LEN {
        Err(DecodeError::Truncated)
    } else {
        Ok(
            EofPacket {
                warnings: wire::read_u16(s, 1).unwrap().0,
                status: wire::read_u16(s, 3).unwrap().0,
            },
        )
    }
}

/// A name of a column definition: a length-encoded string, a NULL one
/// being read as the empty name.
pub open spec fn read_name(s: Seq<u8>, pos: int) -> Result<(Seq<u8>, int), DecodeError> {
    match wire::read_lenenc_string(s, pos) {
        Err(e) => Err(e),
        Ok((None, next)) => Ok((Seq::empty(), next)),
        Ok((Some(bytes), next)) => Ok((bytes, next)),
    }
}

/// The column definition that `s` holds, and the number of bytes it takes:
/// six names, the length-encoded length of the fixed fields, then the fixed
/// fields. Bytes behind them are not looked at.
pub open spec fn parse_column_def(s: Seq<u8>) -> Result<(ColumnDef, int), DecodeError> {
    match read_name(s, 0) {
        Err(e) => Err(e),
        Ok((catalog, p1)) => match read_name(s, p1) {
            Err(e) => Err(e),
            Ok((schema, p2)) => match read_name(s, p2) {
                Err(e) => Err(e),
                Ok((table_alias, p3)) => match read_name(s, p3) {
                    Err(e) => Err(e),
                    Ok((table, p4)) => match read_name(s, p4) {
                        Err(e) => Err(e),
                        Ok((column_alias, p5)) => match read_name(s, p5) {
                            Err(e) => Err(e),
                            Ok((column, p6)) => match wire::read_lenenc_int(s, p6) {
                                Err(e) => Err(e),
                                Ok((fixed_fields_length, p)) => if p + COLUMN_DEF_FIXED_LEN
                                    > s.len() {
                                    Err(DecodeError::Truncated)
                                } else {
                                    Ok(
                                        (
                                            ColumnDef {
                                                catalog,
                                                schema,
                                                table_alias,
                                                table,
                                                column_alias,
                                                column,
                                                fixed_fields_length,
                                                character_set: wire::read_u16(s, p).unwrap().0,
                                                column_size: wire::read_u32(s, p + 2).unwrap().0,
                                                field_type: s[p + 6],
                                                flags: wire::read_u16(s, p + 7).unwrap().0,
                                                decimals: s[p + 9],
                                            },
                                            p + COLUMN_DEF_FIXED_LEN,
                                        ),
                                    )
                                },
                            },
                        },
                    },
                },
            },
        },
    }
}

/// The column definition that `s` holds.
pub open spec fn decode_column_def(s: Seq<u8>) -> Result<ColumnDef, DecodeError> {
    match parse_column_def(s) {
        Err(e) => Err(e),
        Ok((def, _)) => Ok(def),
    }
}

impl Default for ComStmtPrepareOk {
    /// The header of a statement without id, parameters or columns.
    fn default() -> (r: ComStmtPrepareOk)
        ensures
            r == (ComStmtPrepareOk { statement_id: 0, columns: 0, params: 0, warnings: 0 }),
    {
        ComStmtPrepareOk { statement_id: 0, columns: 0, params: 0, warnings: 0 }
    }
}

impl ComStmtPrepareOk {
    /// Decodes a prepare-ok packet: the marker `0x00`, the statement id, the
    /// number of columns, the number of parameters, a reserved byte and the
    /// number of warnings.
    pub fn decode(payload: &[u8], capabilities: &Capabilities) -> (r: Result<
        ComStmtPrepareOk,
        DecodeError,
    >)
        ensures
            r == decode_prepare_ok(payload@),
    {
        let mut cursor = ByteCursor::new(payload);
        let header = cursor.read_u8()?;
        if header != PREPARE_OK_HEADER {
            return Err(DecodeError::UnexpectedHeader { expected: PREPARE_OK_HEADER, found: header });
        }
        let statement_id = cursor.read_u32()?;
        let columns = cursor.read_u16()?;
        let params = cursor.read_u16()?;
        let _reserved = cursor.read_u8()?;
        let warnings = cursor.read_u16()?;
        Ok(ComStmtPrepareOk { statement_id, columns, params, warnings })
    }
}

impl EofPacket {
    /// Decodes an EOF packet: the marker `0xFE`, the number of warnings and
    /// the server status.
    pub fn decode(payload: &[u8], capabilities: &Capabilities) -> (r: Result<
        EofPacket,
        DecodeError,
    >)
        ensures
            r == decode_eof(payload@),
    {
        let mut cursor = ByteCursor::new(payload);
        let header = cursor.read_u8()?;
        if header != EOF_HEADER {
            return Err(DecodeError::UnexpectedHeader { expected: EOF_HEADER, found: header });
        }
        let warnings = cursor.read_u16()?;
        let status = cursor.read_u16()?;
        Ok(EofPacket { warnings, status })
    }
}

/// Reads one name of a column definition.
fn read_name_at(cursor: &mut ByteCursor) -> (r: Result<Vec<u8>, DecodeError>)
    ensures
        final(cursor).bytes() == old(cursor).bytes(),
        match read_name(old(cursor).bytes(), old(cursor).offset()) {
            Ok((name, next)) => r.is_ok() && r.unwrap()@ == name && final(cursor).offset() == next,
            Err(e) => r == Err::<Vec<u8>, DecodeError>(e),
        },
{
    match cursor.read_lenenc_string() {
        Ok(Some(bytes)) => Ok(bytes),
        Ok(None) => Ok(Vec::new()),
        Err(e) => Err(e),
    }
}

impl ColumnDefPacket {
    /// Decodes a column definition: catalog, schema, table alias, table,
    /// column alias and column as length-encoded strings, the length of the
    /// fixed fields as a length-encoded integer, then character set, column
    /// size, field type, flags, decimals and two reserved bytes.
    pub fn decode(payload: &[u8], capabilities: &Capabilities) -> (r: Result<
        ColumnDefPacket,
        DecodeError,
    >)
        ensures
            match decode_column_def(payload@) {
                Ok(def) => r.is_ok() && r.unwrap()@ == def,
                Err(e) => r == Err::<ColumnDefPacket, DecodeError>(e),
            },
    {
        let mut cursor = ByteCursor::new(payload);
        let catalog = read_name_at(&mut cursor)?;
        let schema = read_name_at(&mut cursor)?;
        let table_alias = read_name_at(&mut cursor)?;
        let table = read_name_at(&mut cursor)?;
        let column_alias = read_name_at(&mut cursor)?;
        let column = read_name_at(&mut cursor)?;
        let fixed_fields_length = cursor.read_lenenc_int()?;
        let character_set = cursor.read_u16()?;
        let column_size = cursor.read_u32()?;
        let field_type = cursor.read_u8()?;
        let flags = cursor.read_u16()?;
        let decimals = cursor.read_u8()?;
        let _reserved = cursor.read_u16()?;
        Ok(
            ColumnDefPacket {
                catalog,
                schema,
                table_alias,
                table,
                column_alias,
                column,
                fixed_fields_length,
                character_set,
                column_size,
                field_type,
                flags,
                decimals,
            },
        )
    }
}

/// A prepare-ok packet that decodes still decodes, to the same value, when
/// bytes are cut off behind its twelfth byte; cut anywhere before, it fails
/// as truncated. So does a packet of exactly twelve bytes that loses its
/// last byte.
pub proof fn lemma_prepare_ok_prefix(s: Seq<u8>, n: int)
    requires
        decode_prepare_ok(s).is_ok(),
        0 <= n <= s.len(),
    ensures
        decode_prepare_ok(s.take(n)) == if n < PREPARE_OK_LEN {
            Err(DecodeError::Truncated)
        } else {
            decode_prepare_ok(s)
        },
{
    let t = s.take(n);
    assert forall|i: int| 0 <= i < n implies t[i] == s[i] by {}
}

/// An EOF packet that decodes still decodes, to the same value, when bytes
/// are cut off behind its fifth byte; cut anywhere before, it fails as
/// truncated.
pub proof fn lemma_eof_prefix(s: Seq<u8>, n: int)
    requires
        decode_eof(s).is_ok(),
        0 <= n <= s.len(),
    ensures
        decode_eof(s.take(n)) == if n < EOF_LEN {
            Err(DecodeError::Truncated)
        } else {
            decode_eof(s)
        },
{
    let t = s.take(n);
    assert forall|i: int| 0 <= i < n implies t[i] == s[i] by {}
}

/// A name that is read from the whole of `s` is read from the first `n`
/// bytes too if it ends within them, and else the read fails as truncated.
proof fn lemma_name_prefix(s: Seq<u8>, pos: int, n: int)
    requires
        0 <= pos,
        0 <= n <= s.len(),
        read_name(s, pos).is_ok(),
    ensures
        pos <= read_name(s, pos).unwrap().1,
        read_name(s.take(n), pos) == if read_name(s, pos).unwrap().1 <= n {
            read_name(s, pos)
        } else {
            Err(DecodeError::Truncated)
        },
{
    wire::lemma_lenenc_string_prefix(s, pos, n);
}

/// A column definition that decodes and takes `end` bytes still decodes, to
/// the same value, when bytes are cut off behind them; cut anywhere before
/// `end`, it fails as truncated. So does a packet that holds a column
/// definition and nothing else when it loses its last byte.
pub proof fn lemma_column_def_prefix(s: Seq<u8>, n: int)
    requires
        parse_column_def(s).is_ok(),
        0 <= n <= s.len(),
    ensures
        parse_column_def(s.take(n)) == if n < parse_column_def(s).unwrap().1 {
            Err(DecodeError::Truncated)
        } else {
            parse_column_def(s)
        },
        decode_column_def(s.take(n)) == if n < parse_column_def(s).unwrap().1 {
            Err(DecodeError::Truncated)
        } else {
            decode_column_def(s)
        },
{
    let t = s.take(n);
    assert forall|i: int| 0 <= i < n implies t[i] == s[i] by {}
    let p1 = read_name(s, 0).unwrap().1;
    lemma_name_prefix(s, 0, n);
    let p2 = read_name(s, p1).unwrap().1;
    lemma_name_prefix(s, p1, n);
    let p3 = read_name(s, p2).unwrap().1;
    lemma_name_prefix(s, p2, n);
    let p4 = read_name(s, p3).unwrap().1;
    lemma_name_prefix(s, p3, n);
    let p5 = read_name(s, p4).unwrap().1;
    lemma_name_prefix(s, p4, n);
    let p6 = read_name(s, p5).unwrap().1;
    lemma_name_prefix(s, p5, n);
    wire::lemma_lenenc_int_prefix(s, p6, n);
}

} // verus!
