//! The workspace file format: a canonical JSON document holding every
//! module's identity and parameters and every connection by module id.  The
//! serializer emits exactly one byte sequence per snapshot, and the parser is
//! proved two-sided against it: a document it accepts re-serializes byte for
//! byte, and the canonical document of any snapshot is accepted and read back
//! as exactly that snapshot.

use vstd::prelude::*;

use crate::types::{GateState, ModuleParams, SavedConnection, SavedModule, WorkspaceState};

verus! {

/// The bytes of `{'modules':[`.
pub open spec fn doc_open_bytes() -> Seq<u8> {
    seq![123u8, 34u8, 109u8, 111u8, 100u8, 117u8, 108u8, 101u8, 115u8, 34u8, 58u8, 91u8]
}

/// The bytes of `{'id':`.
pub open spec fn module_open_bytes() -> Seq<u8> {
    seq![123u8, 34u8, 105u8, 100u8, 34u8, 58u8]
}

/// The bytes of `,'params':`.
pub open spec fn params_key_bytes() -> Seq<u8> {
    seq![44u8, 34u8, 112u8, 97u8, 114u8, 97u8, 109u8, 115u8, 34u8, 58u8]
}

/// The bytes of `{'type':'gate','state':'open'}`.
pub open spec fn gate_open_params_bytes() -> Seq<u8> {
    seq![123u8, 34u8, 116u8, 121u8, 112u8, 101u8, 34u8, 58u8, 34u8, 103u8, 97u8, 116u8, 101u8, 34u8, 44u8, 34u8, 115u8, 116u8, 97u8, 116u8, 101u8, 34u8, 58u8, 34u8, 111u8, 112u8, 101u8, 110u8, 34u8, 125u8]
}

/// The bytes of `{'type':'gate','state':'closed'}`.
pub open spec fn gate_closed_params_bytes() -> Seq<u8> {
    seq![123u8, 34u8, 116u8, 121u8, 112u8, 101u8, 34u8, 58u8, 34u8, 103u8, 97u8, 116u8, 101u8, 34u8, 44u8, 34u8, 115u8, 116u8, 97u8, 116u8, 101u8, 34u8, 58u8, 34u8, 99u8, 108u8, 111u8, 115u8, 101u8, 100u8, 34u8, 125u8]
}

/// The bytes of `{'type':'vst'}`.
pub open spec fn vst_params_bytes() -> Seq<u8> {
    seq![123u8, 34u8, 116u8, 121u8, 112u8, 101u8, 34u8, 58u8, 34u8, 118u8, 115u8, 116u8, 34u8, 125u8]
}

/// The bytes of `],'connections':[`.
pub open spec fn connections_key_bytes() -> Seq<u8> {
    seq![93u8, 44u8, 34u8, 99u8, 111u8, 110u8, 110u8, 101u8, 99u8, 116u8, 105u8, 111u8, 110u8, 115u8, 34u8, 58u8, 91u8]
}

/// The bytes of `{'srcId':`.
pub open spec fn conn_open_bytes() -> Seq<u8> {
    seq![123u8, 34u8, 115u8, 114u8, 99u8, 73u8, 100u8, 34u8, 58u8]
}

/// The bytes of `,'srcOutput':`.
pub open spec fn src_output_key_bytes() -> Seq<u8> {
    seq![44u8, 34u8, 115u8, 114u8, 99u8, 79u8, 117u8, 116u8, 112u8, 117u8, 116u8, 34u8, 58u8]
}

/// The bytes of `,'dstId':`.
pub open spec fn dst_id_key_bytes() -> Seq<u8> {
    seq![44u8, 34u8, 100u8, 115u8, 116u8, 73u8, 100u8, 34u8, 58u8]
}

/// The bytes of `,'dstInput':`.
pub open spec fn dst_input_key_bytes() -> Seq<u8> {
    seq![44u8, 34u8, 100u8, 115u8, 116u8, 73u8, 110u8, 112u8, 117u8, 116u8, 34u8, 58u8]
}

/// The bytes of `}`.
pub open spec fn object_close_bytes() -> Seq<u8> {
    seq![125u8]
}

/// The bytes of `,`.
pub open spec fn comma_bytes() -> Seq<u8> {
    seq![44u8]
}

/// The bytes of `]}`.
pub open spec fn doc_close_bytes() -> Seq<u8> {
    seq![93u8, 125u8]
}

fn push_doc_open(out: &mut Vec<u8>)
    ensures
        final(out)@ == old(out)@ + doc_open_bytes(),
{
    out.push(123);
    out.push(34);
    out.push(109);
    out.push(111);
    out.push(100);
    out.push(117);
    out.push(108);
    out.push(101);
    out.push(115);
    out.push(34);
    out.push(58);
    out.push(91);
    proof {
        assert(out@ =~= old(out)@ + doc_open_bytes());
    }
}

fn push_module_open(out: &mut Vec<u8>)
    ensures
        final(out)@ == old(out)@ + module_open_bytes(),
{
    out.push(123);
    out.push(34);
    out.push(105);
    out.push(100);
    out.push(34);
    out.push(58);
    proof {
        assert(out@ =~= old(out)@ + module_open_bytes());
    }
}

fn push_params_key(out: &mut Vec<u8>)
    ensures
        final(out)@ == old(out)@ + params_key_bytes(),
{
    out.push(44);
    out.push(34);
    out.push(112);
    out.push(97);
    out.push(114);
    out.push(97);
    out.push(109);
    out.push(115);
    out.push(34);
    out.push(58);
    proof {
        assert(out@ =~= old(out)@ + params_key_bytes());
    }
}

fn push_gate_open_params(out: &mut Vec<u8>)
    ensures
        final(out)@ == old(out)@ + gate_open_params_bytes(),
{
    out.push(123);
    out.push(34);
    out.push(116);
    out.push(121);
    out.push(112);
    out.push(101);
    out.push(34);
    out.push(58);
    out.push(34);
    out.push(103);
    out.push(97);
    out.push(116);
    out.push(101);
    out.push(34);
    out.push(44);
    out.push(34);
    out.push(115);
    out.push(116);
    out.push(97);
    out.push(116);
    out.push(101);
    out.push(34);
    out.push(58);
    out.push(34);
    out.push(111);
    out.push(112);
    out.push(101);
    out.push(110);
    out.push(34);
    out.push(125);
    proof {
        assert(out@ =~= old(out)@ + gate_open_params_bytes());
    }
}

fn push_gate_closed_params(out: &mut Vec<u8>)
    ensures
        final(out)@ == old(out)@ + gate_closed_params_bytes(),
{
    out.push(123);
    out.push(34);
    out.push(116);
    out.push(121);
    out.push(112);
    out.push(101);
    out.push(34);
    out.push(58);
    out.push(34);
    out.push(103);
    out.push(97);
    out.push(116);
    out.push(101);
    out.push(34);
    out.push(44);
    out.push(34);
    out.push(115);
    out.push(116);
    out.push(97);
    out.push(116);
    out.push(101);
    out.push(34);
    out.push(58);
    out.push(34);
    out.push(99);
    out.push(108);
    out.push(111);
    out.push(115);
    out.push(101);
    out.push(100);
    out.push(34);
    out.push(125);
    proof {
        assert(out@ =~= old(out)@ + gate_closed_params_bytes());
    }
}

fn push_vst_params(out: &mut Vec<u8>)
    ensures
        final(out)@ == old(out)@ + vst_params_bytes(),
{
    out.push(123);
    out.push(34);
    out.push(116);
    out.push(121);
    out.push(112);
    out.push(101);
    out.push(34);
    out.push(58);
    out.push(34);
    out.push(118);
    out.push(115);
    out.push(116);
    out.push(34);
    out.push(125);
    proof {
        assert(out@ =~= old(out)@ + vst_params_bytes());
    }
}

fn push_connections_key(out: &mut Vec<u8>)
    ensures
        final(out)@ == old(out)@ + connections_key_bytes(),
{
    out.push(93);
    out.push(44);
    out.push(34);
    out.push(99);
    out.push(111);
    out.push(110);
    out.push(110);
    out.push(101);
    out.push(99);
    out.push(116);
    out.push(105);
    out.push(111);
    out.push(110);
    out.push(115);
    out.push(34);
    out.push(58);
    out.push(91);
    proof {
        assert(out@ =~= old(out)@ + connections_key_bytes());
    }
}

fn push_conn_open(out: &mut Vec<u8>)
    ensures
        final(out)@ == old(out)@ + conn_open_bytes(),
{
    out.push(123);
    out.push(34);
    out.push(115);
    out.push(114);
    out.push(99);
    out.push(73);
    out.push(100);
    out.push(34);
    out.push(58);
    proof {
        assert(out@ =~= old(out)@ + conn_open_bytes());
    }
}

fn push_src_output_key(out: &mut Vec<u8>)
    ensures
        final(out)@ == old(out)@ + src_output_key_bytes(),
{
    out.push(44);
    out.push(34);
    out.push(115);
    out.push(114);
    out.push(99);
    out.push(79);
    out.push(117);
    out.push(116);
    out.push(112);
    out.push(117);
    out.push(116);
    out.push(34);
    out.push(58);
    proof {
        assert(out@ =~= old(out)@ + src_output_key_bytes());
    }
}

fn push_dst_id_key(out: &mut Vec<u8>)
    ensures
        final(out)@ == old(out)@ + dst_id_key_bytes(),
{
    out.push(44);
    out.push(34);
    out.push(100);
    out.push(115);
    out.push(116);
    out.push(73);
    out.push(100);
    out.push(34);
    out.push(58);
    proof {
        assert(out@ =~= old(out)@ + dst_id_key_bytes());
    }
}

fn push_dst_input_key(out: &mut Vec<u8>)
    ensures
        final(out)@ == old(out)@ + dst_input_key_bytes(),
{
    out.push(44);
    out.push(34);
    out.push(100);
    out.push(115);
    out.push(116);
    out.push(73);
    out.push(110);
    out.push(112);
    out.push(117);
    out.push(116);
    out.push(34);
    out.push(58);
    proof {
        assert(out@ =~= old(out)@ + dst_input_key_bytes());
    }
}

fn push_object_close(out: &mut Vec<u8>)
    ensures
        final(out)@ == old(out)@ + object_close_bytes(),
{
    out.push(125);
    proof {
        assert(out@ =~= old(out)@ + object_close_bytes());
    }
}

fn push_comma(out: &mut Vec<u8>)
    ensures
        final(out)@ == old(out)@ + comma_bytes(),
{
    out.push(44);
    proof {
        assert(out@ =~= old(out)@ + comma_bytes());
    }
}

fn push_doc_close(out: &mut Vec<u8>)
    ensures
        final(out)@ == old(out)@ + doc_close_bytes(),
{
    out.push(93);
    out.push(125);
    proof {
        assert(out@ =~= old(out)@ + doc_close_bytes());
    }
}

fn eat_doc_open(bytes: &Vec<u8>, pos: usize) -> (r: Option<usize>)
    ensures
        r matches Some(p) ==> p == pos + 12 && p <= bytes@.len() && bytes@.subrange(
            pos as int,
            p as int,
        ) == doc_open_bytes(),
        pos + 12 <= bytes@.len() && bytes@.subrange(pos as int, pos as int + 12)
            == doc_open_bytes() ==> r == Some((pos + 12) as usize),
{
    if pos >= bytes.len() || bytes.len() - pos < 12 {
        return None;
    }
    proof {
        assert(doc_open_bytes()[0] == 123);
        assert(bytes@.subrange(pos as int, pos as int + 12)[0] == bytes@[pos + 0]);
    }
    if bytes[pos + 0] != 123 {
        return None;
    }
    proof {
        assert(doc_open_bytes()[1] == 34);
        assert(bytes@.subrange(pos as int, pos as int + 12)[1] == bytes@[pos + 1]);
    }
    if bytes[pos + 1] != 34 {
        return None;
    }
    proof {
        assert(doc_open_bytes()[2] == 109);
        assert(bytes@.subrange(pos as int, pos as int + 12)[2] == bytes@[pos + 2]);
    }
    if bytes[pos + 2] != 109 {
        return None;
    }
    proof {
        assert(doc_open_bytes()[3] == 111);
        assert(bytes@.subrange(pos as int, pos as int + 12)[3] == bytes@[pos + 3]);
    }
    if bytes[pos + 3] != 111 {
        return None;
    }
    proof {
        assert(doc_open_bytes()[4] == 100);
        assert(bytes@.subrange(pos as int, pos as int + 12)[4] == bytes@[pos + 4]);
    }
    if bytes[pos + 4] != 100 {
        return None;
    }
    proof {
        assert(doc_open_bytes()[5] == 117);
        assert(bytes@.subrange(pos as int, pos as int + 12)[5] == bytes@[pos + 5]);
    }
    if bytes[pos + 5] != 117 {
        return None;
    }
    proof {
        assert(doc_open_bytes()[6] == 108);
        assert(bytes@.subrange(pos as int, pos as int + 12)[6] == bytes@[pos + 6]);
    }
    if bytes[pos + 6] != 108 {
        return None;
    }
    proof {
        assert(doc_open_bytes()[7] == 101);
        assert(bytes@.subrange(pos as int, pos as int + 12)[7] == bytes@[pos + 7]);
    }
    if bytes[pos + 7] != 101 {
        return None;
    }
    proof {
        assert(doc_open_bytes()[8] == 115);
        assert(bytes@.subrange(pos as int, pos as int + 12)[8] == bytes@[pos + 8]);
    }
    if bytes[pos + 8] != 115 {
        return None;
    }
    proof {
        assert(doc_open_bytes()[9] == 34);
        assert(bytes@.subrange(pos as int, pos as int + 12)[9] == bytes@[pos + 9]);
    }
    if bytes[pos + 9] != 34 {
        return None;
    }
    proof {
        assert(doc_open_bytes()[10] == 58);
        assert(bytes@.subrange(pos as int, pos as int + 12)[10] == bytes@[pos + 10]);
    }
    if bytes[pos + 10] != 58 {
        return None;
    }
    proof {
        assert(doc_open_bytes()[11] == 91);
        assert(bytes@.subrange(pos as int, pos as int + 12)[11] == bytes@[pos + 11]);
    }
    if bytes[pos + 11] != 91 {
        return None;
    }
    proof {
        assert(bytes@.subrange(pos as int, pos as int + 12) =~= doc_open_bytes());
    }
    Some(pos + 12)
}

fn eat_module_open(bytes: &Vec<u8>, pos: usize) -> (r: Option<usize>)
    ensures
        r matches Some(p) ==> p == pos + 6 && p <= bytes@.len() && bytes@.subrange(
            pos as int,
            p as int,
        ) == module_open_bytes(),
        pos + 6 <= bytes@.len() && bytes@.subrange(pos as int, pos as int + 6)
            == module_open_bytes() ==> r == Some((pos + 6) as usize),
{
    if pos >= bytes.len() || bytes.len() - pos < 6 {
        return None;
    }
    proof {
        assert(module_open_bytes()[0] == 123);
        assert(bytes@.subrange(pos as int, pos as int + 6)[0] == bytes@[pos + 0]);
    }
    if bytes[pos + 0] != 123 {
        return None;
    }
    proof {
        assert(module_open_bytes()[1] == 34);
        assert(bytes@.subrange(pos as int, pos as int + 6)[1] == bytes@[pos + 1]);
    }
    if bytes[pos + 1] != 34 {
        return None;
    }
    proof {
        assert(module_open_bytes()[2] == 105);
        assert(bytes@.subrange(pos as int, pos as int + 6)[2] == bytes@[pos + 2]);
    }
    if bytes[pos + 2] != 105 {
        return None;
    }
    proof {
        assert(module_open_bytes()[3] == 100);
        assert(bytes@.subrange(pos as int, pos as int + 6)[3] == bytes@[pos + 3]);
    }
    if bytes[pos + 3] != 100 {
        return None;
    }
    proof {
        assert(module_open_bytes()[4] == 34);
        assert(bytes@.subrange(pos as int, pos as int + 6)[4] == bytes@[pos + 4]);
    }
    if bytes[pos + 4] != 34 {
        return None;
    }
    proof {
        assert(module_open_bytes()[5] == 58);
        assert(bytes@.subrange(pos as int, pos as int + 6)[5] == bytes@[pos + 5]);
    }
    if bytes[pos + 5] != 58 {
        return None;
    }
    proof {
        assert(bytes@.subrange(pos as int, pos as int + 6) =~= module_open_bytes());
    }
    Some(pos + 6)
}

fn eat_params_key(bytes: &Vec<u8>, pos: usize) -> (r: Option<usize>)
    ensures
        r matches Some(p) ==> p == pos + 10 && p <= bytes@.len() && bytes@.subrange(
            pos as int,
            p as int,
        ) == params_key_bytes(),
        pos + 10 <= bytes@.len() && bytes@.subrange(pos as int, pos as int + 10)
            == params_key_bytes() ==> r == Some((pos + 10) as usize),
{
    if pos >= bytes.len() || bytes.len() - pos < 10 {
        return None;
    }
    proof {
        assert(params_key_bytes()[0] == 44);
        assert(bytes@.subrange(pos as int, pos as int + 10)[0] == bytes@[pos + 0]);
    }
    if bytes[pos + 0] != 44 {
        return None;
    }
    proof {
        assert(params_key_bytes()[1] == 34);
        assert(bytes@.subrange(pos as int, pos as int + 10)[1] == bytes@[pos + 1]);
    }
    if bytes[pos + 1] != 34 {
        return None;
    }
    proof {
        assert(params_key_bytes()[2] == 112);
        assert(bytes@.subrange(pos as int, pos as int + 10)[2] == bytes@[pos + 2]);
    }
    if bytes[pos + 2] != 112 {
        return None;
    }
    proof {
        assert(params_key_bytes()[3] == 97);
        assert(bytes@.subrange(pos as int, pos as int + 10)[3] == bytes@[pos + 3]);
    }
    if bytes[pos + 3] != 97 {
        return None;
    }
    proof {
        assert(params_key_bytes()[4] == 114);
        assert(bytes@.subrange(pos as int, pos as int + 10)[4] == bytes@[pos + 4]);
    }
    if bytes[pos + 4] != 114 {
        return None;
    }
    proof {
        assert(params_key_bytes()[5] == 97);
        assert(bytes@.subrange(pos as int, pos as int + 10)[5] == bytes@[pos + 5]);
    }
    if bytes[pos + 5] != 97 {
        return None;
    }
    proof {
        assert(params_key_bytes()[6] == 109);
        assert(bytes@.subrange(pos as int, pos as int + 10)[6] == bytes@[pos + 6]);
    }
    if bytes[pos + 6] != 109 {
        return None;
    }
    proof {
        assert(params_key_bytes()[7] == 115);
        assert(bytes@.subrange(pos as int, pos as int + 10)[7] == bytes@[pos + 7]);
    }
    if bytes[pos + 7] != 115 {
        return None;
    }
    proof {
        assert(params_key_bytes()[8] == 34);
        assert(bytes@.subrange(pos as int, pos as int + 10)[8] == bytes@[pos + 8]);
    }
    if bytes[pos + 8] != 34 {
        return None;
    }
    proof {
        assert(params_key_bytes()[9] == 58);
        assert(bytes@.subrange(pos as int, pos as int + 10)[9] == bytes@[pos + 9]);
    }
    if bytes[pos + 9] != 58 {
        return None;
    }
    proof {
        assert(bytes@.subrange(pos as int, pos as int + 10) =~= params_key_bytes());
    }
    Some(pos + 10)
}

fn eat_gate_open_params(bytes: &Vec<u8>, pos: usize) -> (r: Option<usize>)
    ensures
        r matches Some(p) ==> p == pos + 30 && p <= bytes@.len() && bytes@.subrange(
            pos as int,
            p as int,
        ) == gate_open_params_bytes(),
        pos + 30 <= bytes@.len() && bytes@.subrange(pos as int, pos as int + 30)
            == gate_open_params_bytes() ==> r == Some((pos + 30) as usize),
{
    if pos >= bytes.len() || bytes.len() - pos < 30 {
        return None;
    }
    proof {
        assert(gate_open_params_bytes()[0] == 123);
        assert(bytes@.subrange(pos as int, pos as int + 30)[0] == bytes@[pos + 0]);
    }
    if bytes[pos + 0] != 123 {
        return None;
    }
    proof {
        assert(gate_open_params_bytes()[1] == 34);
        assert(bytes@.subrange(pos as int, pos as int + 30)[1] == bytes@[pos + 1]);
    }
    if bytes[pos + 1] != 34 {
        return None;
    }
    proof {
        assert(gate_open_params_bytes()[2] == 116);
        assert(bytes@.subrange(pos as int, pos as int + 30)[2] == bytes@[pos + 2]);
    }
    if bytes[pos + 2] != 116 {
        return None;
    }
    proof {
        assert(gate_open_params_bytes()[3] == 121);
        assert(bytes@.subrange(pos as int, pos as int + 30)[3] == bytes@[pos + 3]);
    }
    if bytes[pos + 3] != 121 {
        return None;
    }
    proof {
        assert(gate_open_params_bytes()[4] == 112);
        assert(bytes@.subrange(pos as int, pos as int + 30)[4] == bytes@[pos + 4]);
    }
    if bytes[pos + 4] != 112 {
        return None;
    }
    proof {
        assert(gate_open_params_bytes()[5] == 101);
        assert(bytes@.subrange(pos as int, pos as int + 30)[5] == bytes@[pos + 5]);
    }
    if bytes[pos + 5] != 101 {
        return None;
    }
    proof {
        assert(gate_open_params_bytes()[6] == 34);
        assert(bytes@.subrange(pos as int, pos as int + 30)[6] == bytes@[pos + 6]);
    }
    if bytes[pos + 6] != 34 {
        return None;
    }
    proof {
        assert(gate_open_params_bytes()[7] == 58);
        assert(bytes@.subrange(pos as int, pos as int + 30)[7] == bytes@[pos + 7]);
    }
    if bytes[pos + 7] != 58 {
        return None;
    }
    proof {
        assert(gate_open_params_bytes()[8] == 34);
        assert(bytes@.subrange(pos as int, pos as int + 30)[8] == bytes@[pos + 8]);
    }
    if bytes[pos + 8] != 34 {
        return None;
    }
    proof {
        assert(gate_open_params_bytes()[9] == 103);
        assert(bytes@.subrange(pos as int, pos as int + 30)[9] == bytes@[pos + 9]);
    }
    if bytes[pos + 9] != 103 {
        return None;
    }
    proof {
        assert(gate_open_params_bytes()[10] == 97);
        assert(bytes@.subrange(pos as int, pos as int + 30)[10] == bytes@[pos + 10]);
    }
    if bytes[pos + 10] != 97 {
        return None;
    }
    proof {
        assert(gate_open_params_bytes()[11] == 116);
        assert(bytes@.subrange(pos as int, pos as int + 30)[11] == bytes@[pos + 11]);
    }
    if bytes[pos + 11] != 116 {
        return None;
    }
    proof {
        assert(gate_open_params_bytes()[12] == 101);
        assert(bytes@.subrange(pos as int, pos as int + 30)[12] == bytes@[pos + 12]);
    }
    if bytes[pos + 12] != 101 {
        return None;
    }
    proof {
        assert(gate_open_params_bytes()[13] == 34);
        assert(bytes@.subrange(pos as int, pos as int + 30)[13] == bytes@[pos + 13]);
    }
    if bytes[pos + 13] != 34 {
        return None;
    }
    proof {
        assert(gate_open_params_bytes()[14] == 44);
        assert(bytes@.subrange(pos as int, pos as int + 30)[14] == bytes@[pos + 14]);
    }
    if bytes[pos + 14] != 44 {
        return None;
    }
    proof {
        assert(gate_open_params_bytes()[15] == 34);
        assert(bytes@.subrange(pos as int, pos as int + 30)[15] == bytes@[pos + 15]);
    }
    if bytes[pos + 15] != 34 {
        return None;
    }
    proof {
        assert(gate_open_params_bytes()[16] == 115);
        assert(bytes@.subrange(pos as int, pos as int + 30)[16] == bytes@[pos + 16]);
    }
    if bytes[pos + 16] != 115 {
        return None;
    }
    proof {
        assert(gate_open_params_bytes()[17] == 116);
        assert(bytes@.subrange(pos as int, pos as int + 30)[17] == bytes@[pos + 17]);
    }
    if bytes[pos + 17] != 116 {
        return None;
    }
    proof {
        assert(gate_open_params_bytes()[18] == 97);
        assert(bytes@.subrange(pos as int, pos as int + 30)[18] == bytes@[pos + 18]);
    }
    if bytes[pos + 18] != 97 {
        return None;
    }
    proof {
        assert(gate_open_params_bytes()[19] == 116);
        assert(bytes@.subrange(pos as int, pos as int + 30)[19] == bytes@[pos + 19]);
    }
    if bytes[pos + 19] != 116 {
        return None;
    }
    proof {
        assert(gate_open_params_bytes()[20] == 101);
        assert(bytes@.subrange(pos as int, pos as int + 30)[20] == bytes@[pos + 20]);
    }
    if bytes[pos + 20] != 101 {
        return None;
    }
    proof {
        assert(gate_open_params_bytes()[21] == 34);
        assert(bytes@.subrange(pos as int, pos as int + 30)[21] == bytes@[pos + 21]);
    }
    if bytes[pos + 21] != 34 {
        return None;
    }
    proof {
        assert(gate_open_params_bytes()[22] == 58);
        assert(bytes@.subrange(pos as int, pos as int + 30)[22] == bytes@[pos + 22]);
    }
    if bytes[pos + 22] != 58 {
        return None;
    }
    proof {
        assert(gate_open_params_bytes()[23] == 34);
        assert(bytes@.subrange(pos as int, pos as int + 30)[23] == bytes@[pos + 23]);
    }
    if bytes[pos + 23] != 34 {
        return None;
    }
    proof {
        assert(gate_open_params_bytes()[24] == 111);
        assert(bytes@.subrange(pos as int, pos as int + 30)[24] == bytes@[pos + 24]);
    }
    if bytes[pos + 24] != 111 {
        return None;
    }
    proof {
        assert(gate_open_params_bytes()[25] == 112);
        assert(bytes@.subrange(pos as int, pos as int + 30)[25] == bytes@[pos + 25]);
    }
    if bytes[pos + 25] != 112 {
        return None;
    }
    proof {
        assert(gate_open_params_bytes()[26] == 101);
        assert(bytes@.subrange(pos as int, pos as int + 30)[26] == bytes@[pos + 26]);
    }
    if bytes[pos + 26] != 101 {
        return None;
    }
    proof {
        assert(gate_open_params_bytes()[27] == 110);
        assert(bytes@.subrange(pos as int, pos as int + 30)[27] == bytes@[pos + 27]);
    }
    if bytes[pos + 27] != 110 {
        return None;
    }
    proof {
        assert(gate_open_params_bytes()[28] == 34);
        assert(bytes@.subrange(pos as int, pos as int + 30)[28] == bytes@[pos + 28]);
    }
    if bytes[pos + 28] != 34 {
        return None;
    }
    proof {
        assert(gate_open_params_bytes()[29] == 125);
        assert(bytes@.subrange(pos as int, pos as int + 30)[29] == bytes@[pos + 29]);
    }
    if bytes[pos + 29] != 125 {
        return None;
    }
    proof {
        assert(bytes@.subrange(pos as int, pos as int + 30) =~= gate_open_params_bytes());
    }
    Some(pos + 30)
}

fn eat_gate_closed_params(bytes: &Vec<u8>, pos: usize) -> (r: Option<usize>)
    ensures
        r matches Some(p) ==> p == pos + 32 && p <= bytes@.len() && bytes@.subrange(
            pos as int,
            p as int,
        ) == gate_closed_params_bytes(),
        pos + 32 <= bytes@.len() && bytes@.subrange(pos as int, pos as int + 32)
            == gate_closed_params_bytes() ==> r == Some((pos + 32) as usize),
{
    if pos >= bytes.len() || bytes.len() - pos < 32 {
        return None;
    }
    proof {
        assert(gate_closed_params_bytes()[0] == 123);
        assert(bytes@.subrange(pos as int, pos as int + 32)[0] == bytes@[pos + 0]);
    }
    if bytes[pos + 0] != 123 {
        return None;
    }
    proof {
        assert(gate_closed_params_bytes()[1] == 34);
        assert(bytes@.subrange(pos as int, pos as int + 32)[1] == bytes@[pos + 1]);
    }
    if bytes[pos + 1] != 34 {
        return None;
    }
    proof {
        assert(gate_closed_params_bytes()[2] == 116);
        assert(bytes@.subrange(pos as int, pos as int + 32)[2] == bytes@[pos + 2]);
    }
    if bytes[pos + 2] != 116 {
        return None;
    }
    proof {
        assert(gate_closed_params_bytes()[3] == 121);
        assert(bytes@.subrange(pos as int, pos as int + 32)[3] == bytes@[pos + 3]);
    }
    if bytes[pos + 3] != 121 {
        return None;
    }
    proof {
        assert(gate_closed_params_bytes()[4] == 112);
        assert(bytes@.subrange(pos as int, pos as int + 32)[4] == bytes@[pos + 4]);
    }
    if bytes[pos + 4] != 112 {
        return None;
    }
    proof {
        assert(gate_closed_params_bytes()[5] == 101);
        assert(bytes@.subrange(pos as int, pos as int + 32)[5] == bytes@[pos + 5]);
    }
    if bytes[pos + 5] != 101 {
        return None;
    }
    proof {
        assert(gate_closed_params_bytes()[6] == 34);
        assert(bytes@.subrange(pos as int, pos as int + 32)[6] == bytes@[pos + 6]);
    }
    if bytes[pos + 6] != 34 {
        return None;
    }
    proof {
        assert(gate_closed_params_bytes()[7] == 58);
        assert(bytes@.subrange(pos as int, pos as int + 32)[7] == bytes@[pos + 7]);
    }
    if bytes[pos + 7] != 58 {
        return None;
    }
    proof {
        assert(gate_closed_params_bytes()[8] == 34);
        assert(bytes@.subrange(pos as int, pos as int + 32)[8] == bytes@[pos + 8]);
    }
    if bytes[pos + 8] != 34 {
        return None;
    }
    proof {
        assert(gate_closed_params_bytes()[9] == 103);
        assert(bytes@.subrange(pos as int, pos as int + 32)[9] == bytes@[pos + 9]);
    }
    if bytes[pos + 9] != 103 {
        return None;
    }
    proof {
        assert(gate_closed_params_bytes()[10] == 97);
        assert(bytes@.subrange(pos as int, pos as int + 32)[10] == bytes@[pos + 10]);
    }
    if bytes[pos + 10] != 97 {
        return None;
    }
    proof {
        assert(gate_closed_params_bytes()[11] == 116);
        assert(bytes@.subrange(pos as int, pos as int + 32)[11] == bytes@[pos + 11]);
    }
    if bytes[pos + 11] != 116 {
        return None;
    }
    proof {
        assert(gate_closed_params_bytes()[12] == 101);
        assert(bytes@.subrange(pos as int, pos as int + 32)[12] == bytes@[pos + 12]);
    }
    if bytes[pos + 12] != 101 {
        return None;
    }
    proof {
        assert(gate_closed_params_bytes()[13] == 34);
        assert(bytes@.subrange(pos as int, pos as int + 32)[13] == bytes@[pos + 13]);
    }
    if bytes[pos + 13] != 34 {
        return None;
    }
    proof {
        assert(gate_closed_params_bytes()[14] == 44);
        assert(bytes@.subrange(pos as int, pos as int + 32)[14] == bytes@[pos + 14]);
    }
    if bytes[pos + 14] != 44 {
        return None;
    }
    proof {
        assert(gate_closed_params_bytes()[15] == 34);
        assert(bytes@.subrange(pos as int, pos as int + 32)[15] == bytes@[pos + 15]);
    }
    if bytes[pos + 15] != 34 {
        return None;
    }
    proof {
        assert(gate_closed_params_bytes()[16] == 115);
        assert(bytes@.subrange(pos as int, pos as int + 32)[16] == bytes@[pos + 16]);
    }
    if bytes[pos + 16] != 115 {
        return None;
    }
    proof {
        assert(gate_closed_params_bytes()[17] == 116);
        assert(bytes@.subrange(pos as int, pos as int + 32)[17] == bytes@[pos + 17]);
    }
    if bytes[pos + 17] != 116 {
        return None;
    }
    proof {
        assert(gate_closed_params_bytes()[18] == 97);
        assert(bytes@.subrange(pos as int, pos as int + 32)[18] == bytes@[pos + 18]);
    }
    if bytes[pos + 18] != 97 {
        return None;
    }
    proof {
        assert(gate_closed_params_bytes()[19] == 116);
        assert(bytes@.subrange(pos as int, pos as int + 32)[19] == bytes@[pos + 19]);
    }
    if bytes[pos + 19] != 116 {
        return None;
    }
    proof {
        assert(gate_closed_params_bytes()[20] == 101);
        assert(bytes@.subrange(pos as int, pos as int + 32)[20] == bytes@[pos + 20]);
    }
    if bytes[pos + 20] != 101 {
        return None;
    }
    proof {
        assert(gate_closed_params_bytes()[21] == 34);
        assert(bytes@.subrange(pos as int, pos as int + 32)[21] == bytes@[pos + 21]);
    }
    if bytes[pos + 21] != 34 {
        return None;
    }
    proof {
        assert(gate_closed_params_bytes()[22] == 58);
        assert(bytes@.subrange(pos as int, pos as int + 32)[22] == bytes@[pos + 22]);
    }
    if bytes[pos + 22] != 58 {
        return None;
    }
    proof {
        assert(gate_closed_params_bytes()[23] == 34);
        assert(bytes@.subrange(pos as int, pos as int + 32)[23] == bytes@[pos + 23]);
    }
    if bytes[pos + 23] != 34 {
        return None;
    }
    proof {
        assert(gate_closed_params_bytes()[24] == 99);
        assert(bytes@.subrange(pos as int, pos as int + 32)[24] == bytes@[pos + 24]);
    }
    if bytes[pos + 24] != 99 {
        return None;
    }
    proof {
        assert(gate_closed_params_bytes()[25] == 108);
        assert(bytes@.subrange(pos as int, pos as int + 32)[25] == bytes@[pos + 25]);
    }
    if bytes[pos + 25] != 108 {
        return None;
    }
    proof {
        assert(gate_closed_params_bytes()[26] == 111);
        assert(bytes@.subrange(pos as int, pos as int + 32)[26] == bytes@[pos + 26]);
    }
    if bytes[pos + 26] != 111 {
        return None;
    }
    proof {
        assert(gate_closed_params_bytes()[27] == 115);
        assert(bytes@.subrange(pos as int, pos as int + 32)[27] == bytes@[pos + 27]);
    }
    if bytes[pos + 27] != 115 {
        return None;
    }
    proof {
        assert(gate_closed_params_bytes()[28] == 101);
        assert(bytes@.subrange(pos as int, pos as int + 32)[28] == bytes@[pos + 28]);
    }
    if bytes[pos + 28] != 101 {
        return None;
    }
    proof {
        assert(gate_closed_params_bytes()[29] == 100);
        assert(bytes@.subrange(pos as int, pos as int + 32)[29] == bytes@[pos + 29]);
    }
    if bytes[pos + 29] != 100 {
        return None;
    }
    proof {
        assert(gate_closed_params_bytes()[30] == 34);
        assert(bytes@.subrange(pos as int, pos as int + 32)[30] == bytes@[pos + 30]);
    }
    if bytes[pos + 30] != 34 {
        return None;
    }
    proof {
        assert(gate_closed_params_bytes()[31] == 125);
        assert(bytes@.subrange(pos as int, pos as int + 32)[31] == bytes@[pos + 31]);
    }
    if bytes[pos + 31] != 125 {
        return None;
    }
    proof {
        assert(bytes@.subrange(pos as int, pos as int + 32) =~= gate_closed_params_bytes());
    }
    Some(pos + 32)
}

fn eat_vst_params(bytes: &Vec<u8>, pos: usize) -> (r: Option<usize>)
    ensures
        r matches Some(p) ==> p == pos + 14 && p <= bytes@.len() && bytes@.subrange(
            pos as int,
            p as int,
        ) == vst_params_bytes(),
        pos + 14 <= bytes@.len() && bytes@.subrange(pos as int, pos as int + 14)
            == vst_params_bytes() ==> r == Some((pos + 14) as usize),
{
    if pos >= bytes.len() || bytes.len() - pos < 14 {
        return None;
    }
    proof {
        assert(vst_params_bytes()[0] == 123);
        assert(bytes@.subrange(pos as int, pos as int + 14)[0] == bytes@[pos + 0]);
    }
    if bytes[pos + 0] != 123 {
        return None;
    }
    proof {
        assert(vst_params_bytes()[1] == 34);
        assert(bytes@.subrange(pos as int, pos as int + 14)[1] == bytes@[pos + 1]);
    }
    if bytes[pos + 1] != 34 {
        return None;
    }
    proof {
        assert(vst_params_bytes()[2] == 116);
        assert(bytes@.subrange(pos as int, pos as int + 14)[2] == bytes@[pos + 2]);
    }
    if bytes[pos + 2] != 116 {
        return None;
    }
    proof {
        assert(vst_params_bytes()[3] == 121);
        assert(bytes@.subrange(pos as int, pos as int + 14)[3] == bytes@[pos + 3]);
    }
    if bytes[pos + 3] != 121 {
        return None;
    }
    proof {
        assert(vst_params_bytes()[4] == 112);
        assert(bytes@.subrange(pos as int, pos as int + 14)[4] == bytes@[pos + 4]);
    }
    if bytes[pos + 4] != 112 {
        return None;
    }
    proof {
        assert(vst_params_bytes()[5] == 101);
        assert(bytes@.subrange(pos as int, pos as int + 14)[5] == bytes@[pos + 5]);
    }
    if bytes[pos + 5] != 101 {
        return None;
    }
    proof {
        assert(vst_params_bytes()[6] == 34);
        assert(bytes@.subrange(pos as int, pos as int + 14)[6] == bytes@[pos + 6]);
    }
    if bytes[pos + 6] != 34 {
        return None;
    }
    proof {
        assert(vst_params_bytes()[7] == 58);
        assert(bytes@.subrange(pos as int, pos as int + 14)[7] == bytes@[pos + 7]);
    }
    if bytes[pos + 7] != 58 {
        return None;
    }
    proof {
        assert(vst_params_bytes()[8] == 34);
        assert(bytes@.subrange(pos as int, pos as int + 14)[8] == bytes@[pos + 8]);
    }
    if bytes[pos + 8] != 34 {
        return None;
    }
    proof {
        assert(vst_params_bytes()[9] == 118);
        assert(bytes@.subrange(pos as int, pos as int + 14)[9] == bytes@[pos + 9]);
    }
    if bytes[pos + 9] != 118 {
        return None;
    }
    proof {
        assert(vst_params_bytes()[10] == 115);
        assert(bytes@.subrange(pos as int, pos as int + 14)[10] == bytes@[pos + 10]);
    }
    if bytes[pos + 10] != 115 {
        return None;
    }
    proof {
        assert(vst_params_bytes()[11] == 116);
        assert(bytes@.subrange(pos as int, pos as int + 14)[11] == bytes@[pos + 11]);
    }
    if bytes[pos + 11] != 116 {
        return None;
    }
    proof {
        assert(vst_params_bytes()[12] == 34);
        assert(bytes@.subrange(pos as int, pos as int + 14)[12] == bytes@[pos + 12]);
    }
    if bytes[pos + 12] != 34 {
        return None;
    }
    proof {
        assert(vst_params_bytes()[13] == 125);
        assert(bytes@.subrange(pos as int, pos as int + 14)[13] == bytes@[pos + 13]);
    }
    if bytes[pos + 13] != 125 {
        return None;
    }
    proof {
        assert(bytes@.subrange(pos as int, pos as int + 14) =~= vst_params_bytes());
    }
    Some(pos + 14)
}

fn eat_connections_key(bytes: &Vec<u8>, pos: usize) -> (r: Option<usize>)
    ensures
        r matches Some(p) ==> p == pos + 17 && p <= bytes@.len() && bytes@.subrange(
            pos as int,
            p as int,
        ) == connections_key_bytes(),
        pos + 17 <= bytes@.len() && bytes@.subrange(pos as int, pos as int + 17)
            == connections_key_bytes() ==> r == Some((pos + 17) as usize),
{
    if pos >= bytes.len() || bytes.len() - pos < 17 {
        return None;
    }
    proof {
        assert(connections_key_bytes()[0] == 93);
        assert(bytes@.subrange(pos as int, pos as int + 17)[0] == bytes@[pos + 0]);
    }
    if bytes[pos + 0] != 93 {
        return None;
    }
    proof {
        assert(connections_key_bytes()[1] == 44);
        assert(bytes@.subrange(pos as int, pos as int + 17)[1] == bytes@[pos + 1]);
    }
    if bytes[pos + 1] != 44 {
        return None;
    }
    proof {
        assert(connections_key_bytes()[2] == 34);
        assert(bytes@.subrange(pos as int, pos as int + 17)[2] == bytes@[pos + 2]);
    }
    if bytes[pos + 2] != 34 {
        return None;
    }
    proof {
        assert(connections_key_bytes()[3] == 99);
        assert(bytes@.subrange(pos as int, pos as int + 17)[3] == bytes@[pos + 3]);
    }
    if bytes[pos + 3] != 99 {
        return None;
    }
    proof {
        assert(connections_key_bytes()[4] == 111);
        assert(bytes@.subrange(pos as int, pos as int + 17)[4] == bytes@[pos + 4]);
    }
    if bytes[pos + 4] != 111 {
        return None;
    }
    proof {
        assert(connections_key_bytes()[5] == 110);
        assert(bytes@.subrange(pos as int, pos as int + 17)[5] == bytes@[pos + 5]);
    }
    if bytes[pos + 5] != 110 {
        return None;
    }
    proof {
        assert(connections_key_bytes()[6] == 110);
        assert(bytes@.subrange(pos as int, pos as int + 17)[6] == bytes@[pos + 6]);
    }
    if bytes[pos + 6] != 110 {
        return None;
    }
    proof {
        assert(connections_key_bytes()[7] == 101);
        assert(bytes@.subrange(pos as int, pos as int + 17)[7] == bytes@[pos + 7]);
    }
    if bytes[pos + 7] != 101 {
        return None;
    }
    proof {
        assert(connections_key_bytes()[8] == 99);
        assert(bytes@.subrange(pos as int, pos as int + 17)[8] == bytes@[pos + 8]);
    }
    if bytes[pos + 8] != 99 {
        return None;
    }
    proof {
        assert(connections_key_bytes()[9] == 116);
        assert(bytes@.subrange(pos as int, pos as int + 17)[9] == bytes@[pos + 9]);
    }
    if bytes[pos + 9] != 116 {
        return None;
    }
    proof {
        assert(connections_key_bytes()[10] == 105);
        assert(bytes@.subrange(pos as int, pos as int + 17)[10] == bytes@[pos + 10]);
    }
    if bytes[pos + 10] != 105 {
        return None;
    }
    proof {
        assert(connections_key_bytes()[11] == 111);
        assert(bytes@.subrange(pos as int, pos as int + 17)[11] == bytes@[pos + 11]);
    }
    if bytes[pos + 11] != 111 {
        return None;
    }
    proof {
        assert(connections_key_bytes()[12] == 110);
        assert(bytes@.subrange(pos as int, pos as int + 17)[12] == bytes@[pos + 12]);
    }
    if bytes[pos + 12] != 110 {
        return None;
    }
    proof {
        assert(connections_key_bytes()[13] == 115);
        assert(bytes@.subrange(pos as int, pos as int + 17)[13] == bytes@[pos + 13]);
    }
    if bytes[pos + 13] != 115 {
        return None;
    }
    proof {
        assert(connections_key_bytes()[14] == 34);
        assert(bytes@.subrange(pos as int, pos as int + 17)[14] == bytes@[pos + 14]);
    }
    if bytes[pos + 14] != 34 {
        return None;
    }
    proof {
        assert(connections_key_bytes()[15] == 58);
        assert(bytes@.subrange(pos as int, pos as int + 17)[15] == bytes@[pos + 15]);
    }
    if bytes[pos + 15] != 58 {
        return None;
    }
    proof {
        assert(connections_key_bytes()[16] == 91);
        assert(bytes@.subrange(pos as int, pos as int + 17)[16] == bytes@[pos + 16]);
    }
    if bytes[pos + 16] != 91 {
        return None;
    }
    proof {
        assert(bytes@.subrange(pos as int, pos as int + 17) =~= connections_key_bytes());
    }
    Some(pos + 17)
}

fn eat_conn_open(bytes: &Vec<u8>, pos: usize) -> (r: Option<usize>)
    ensures
        r matches Some(p) ==> p == pos + 9 && p <= bytes@.len() && bytes@.subrange(
            pos as int,
            p as int,
        ) == conn_open_bytes(),
        pos + 9 <= bytes@.len() && bytes@.subrange(pos as int, pos as int + 9)
            == conn_open_bytes() ==> r == Some((pos + 9) as usize),
{
    if pos >= bytes.len() || bytes.len() - pos < 9 {
        return None;
    }
    proof {
        assert(conn_open_bytes()[0] == 123);
        assert(bytes@.subrange(pos as int, pos as int + 9)[0] == bytes@[pos + 0]);
    }
    if bytes[pos + 0] != 123 {
        return None;
    }
    proof {
        assert(conn_open_bytes()[1] == 34);
        assert(bytes@.subrange(pos as int, pos as int + 9)[1] == bytes@[pos + 1]);
    }
    if bytes[pos + 1] != 34 {
        return None;
    }
    proof {
        assert(conn_open_bytes()[2] == 115);
        assert(bytes@.subrange(pos as int, pos as int + 9)[2] == bytes@[pos + 2]);
    }
    if bytes[pos + 2] != 115 {
        return None;
    }
    proof {
        assert(conn_open_bytes()[3] == 114);
        assert(bytes@.subrange(pos as int, pos as int + 9)[3] == bytes@[pos + 3]);
    }
    if bytes[pos + 3] != 114 {
        return None;
    }
    proof {
        assert(conn_open_bytes()[4] == 99);
        assert(bytes@.subrange(pos as int, pos as int + 9)[4] == bytes@[pos + 4]);
    }
    if bytes[pos + 4] != 99 {
        return None;
    }
    proof {
        assert(conn_open_bytes()[5] == 73);
        assert(bytes@.subrange(pos as int, pos as int + 9)[5] == bytes@[pos + 5]);
    }
    if bytes[pos + 5] != 73 {
        return None;
    }
    proof {
        assert(conn_open_bytes()[6] == 100);
        assert(bytes@.subrange(pos as int, pos as int + 9)[6] == bytes@[pos + 6]);
    }
    if bytes[pos + 6] != 100 {
        return None;
    }
    proof {
        assert(conn_open_bytes()[7] == 34);
        assert(bytes@.subrange(pos as int, pos as int + 9)[7] == bytes@[pos + 7]);
    }
    if bytes[pos + 7] != 34 {
        return None;
    }
    proof {
        assert(conn_open_bytes()[8] == 58);
        assert(bytes@.subrange(pos as int, pos as int + 9)[8] == bytes@[pos + 8]);
    }
    if bytes[pos + 8] != 58 {
        return None;
    }
    proof {
        assert(bytes@.subrange(pos as int, pos as int + 9) =~= conn_open_bytes());
    }
    Some(pos + 9)
}

fn eat_src_output_key(bytes: &Vec<u8>, pos: usize) -> (r: Option<usize>)
    ensures
        r matches Some(p) ==> p == pos + 13 && p <= bytes@.len() && bytes@.subrange(
            pos as int,
            p as int,
        ) == src_output_key_bytes(),
        pos + 13 <= bytes@.len() && bytes@.subrange(pos as int, pos as int + 13)
            == src_output_key_bytes() ==> r == Some((pos + 13) as usize),
{
    if pos >= bytes.len() || bytes.len() - pos < 13 {
        return None;
    }
    proof {
        assert(src_output_key_bytes()[0] == 44);
        assert(bytes@.subrange(pos as int, pos as int + 13)[0] == bytes@[pos + 0]);
    }
    if bytes[pos + 0] != 44 {
        return None;
    }
    proof {
        assert(src_output_key_bytes()[1] == 34);
        assert(bytes@.subrange(pos as int, pos as int + 13)[1] == bytes@[pos + 1]);
    }
    if bytes[pos + 1] != 34 {
        return None;
    }
    proof {
        assert(src_output_key_bytes()[2] == 115);
        assert(bytes@.subrange(pos as int, pos as int + 13)[2] == bytes@[pos + 2]);
    }
    if bytes[pos + 2] != 115 {
        return None;
    }
    proof {
        assert(src_output_key_bytes()[3] == 114);
        assert(bytes@.subrange(pos as int, pos as int + 13)[3] == bytes@[pos + 3]);
    }
    if bytes[pos + 3] != 114 {
        return None;
    }
    proof {
        assert(src_output_key_bytes()[4] == 99);
        assert(bytes@.subrange(pos as int, pos as int + 13)[4] == bytes@[pos + 4]);
    }
    if bytes[pos + 4] != 99 {
        return None;
    }
    proof {
        assert(src_output_key_bytes()[5] == 79);
        assert(bytes@.subrange(pos as int, pos as int + 13)[5] == bytes@[pos + 5]);
    }
    if bytes[pos + 5] != 79 {
        return None;
    }
    proof {
        assert(src_output_key_bytes()[6] == 117);
        assert(bytes@.subrange(pos as int, pos as int + 13)[6] == bytes@[pos + 6]);
    }
    if bytes[pos + 6] != 117 {
        return None;
    }
    proof {
        assert(src_output_key_bytes()[7] == 116);
        assert(bytes@.subrange(pos as int, pos as int + 13)[7] == bytes@[pos + 7]);
    }
    if bytes[pos + 7] != 116 {
        return None;
    }
    proof {
        assert(src_output_key_bytes()[8] == 112);
        assert(bytes@.subrange(pos as int, pos as int + 13)[8] == bytes@[pos + 8]);
    }
    if bytes[pos + 8] != 112 {
        return None;
    }
    proof {
        assert(src_output_key_bytes()[9] == 117);
        assert(bytes@.subrange(pos as int, pos as int + 13)[9] == bytes@[pos + 9]);
    }
    if bytes[pos + 9] != 117 {
        return None;
    }
    proof {
        assert(src_output_key_bytes()[10] == 116);
        assert(bytes@.subrange(pos as int, pos as int + 13)[10] == bytes@[pos + 10]);
    }
    if bytes[pos + 10] != 116 {
        return None;
    }
    proof {
        assert(src_output_key_bytes()[11] == 34);
        assert(bytes@.subrange(pos as int, pos as int + 13)[11] == bytes@[pos + 11]);
    }
    if bytes[pos + 11] != 34 {
        return None;
    }
    proof {
        assert(src_output_key_bytes()[12] == 58);
        assert(bytes@.subrange(pos as int, pos as int + 13)[12] == bytes@[pos + 12]);
    }
    if bytes[pos + 12] != 58 {
        return None;
    }
    proof {
        assert(bytes@.subrange(pos as int, pos as int + 13) =~= src_output_key_bytes());
    }
    Some(pos + 13)
}

fn eat_dst_id_key(bytes: &Vec<u8>, pos: usize) -> (r: Option<usize>)
    ensures
        r matches Some(p) ==> p == pos + 9 && p <= bytes@.len() && bytes@.subrange(
            pos as int,
            p as int,
        ) == dst_id_key_bytes(),
        pos + 9 <= bytes@.len() && bytes@.subrange(pos as int, pos as int + 9)
            == dst_id_key_bytes() ==> r == Some((pos + 9) as usize),
{
    if pos >= bytes.len() || bytes.len() - pos < 9 {
        return None;
    }
    proof {
        assert(dst_id_key_bytes()[0] == 44);
        assert(bytes@.subrange(pos as int, pos as int + 9)[0] == bytes@[pos + 0]);
    }
    if bytes[pos + 0] != 44 {
        return None;
    }
    proof {
        assert(dst_id_key_bytes()[1] == 34);
        assert(bytes@.subrange(pos as int, pos as int + 9)[1] == bytes@[pos + 1]);
    }
    if bytes[pos + 1] != 34 {
        return None;
    }
    proof {
        assert(dst_id_key_bytes()[2] == 100);
        assert(bytes@.subrange(pos as int, pos as int + 9)[2] == bytes@[pos + 2]);
    }
    if bytes[pos + 2] != 100 {
        return None;
    }
    proof {
        assert(dst_id_key_bytes()[3] == 115);
        assert(bytes@.subrange(pos as int, pos as int + 9)[3] == bytes@[pos + 3]);
    }
    if bytes[pos + 3] != 115 {
        return None;
    }
    proof {
        assert(dst_id_key_bytes()[4] == 116);
        assert(bytes@.subrange(pos as int, pos as int + 9)[4] == bytes@[pos + 4]);
    }
    if bytes[pos + 4] != 116 {
        return None;
    }
    proof {
        assert(dst_id_key_bytes()[5] == 73);
        assert(bytes@.subrange(pos as int, pos as int + 9)[5] == bytes@[pos + 5]);
    }
    if bytes[pos + 5] != 73 {
        return None;
    }
    proof {
        assert(dst_id_key_bytes()[6] == 100);
        assert(bytes@.subrange(pos as int, pos as int + 9)[6] == bytes@[pos + 6]);
    }
    if bytes[pos + 6] != 100 {
        return None;
    }
    proof {
        assert(dst_id_key_bytes()[7] == 34);
        assert(bytes@.subrange(pos as int, pos as int + 9)[7] == bytes@[pos + 7]);
    }
    if bytes[pos + 7] != 34 {
        return None;
    }
    proof {
        assert(dst_id_key_bytes()[8] == 58);
        assert(bytes@.subrange(pos as int, pos as int + 9)[8] == bytes@[pos + 8]);
    }
    if bytes[pos + 8] != 58 {
        return None;
    }
    proof {
        assert(bytes@.subrange(pos as int, pos as int + 9) =~= dst_id_key_bytes());
    }
    Some(pos + 9)
}

fn eat_dst_input_key(bytes: &Vec<u8>, pos: usize) -> (r: Option<usize>)
    ensures
        r matches Some(p) ==> p == pos + 12 && p <= bytes@.len() && bytes@.subrange(
            pos as int,
            p as int,
        ) == dst_input_key_bytes(),
        pos + 12 <= bytes@.len() && bytes@.subrange(pos as int, pos as int + 12)
            == dst_input_key_bytes() ==> r == Some((pos + 12) as usize),
{
    if pos >= bytes.len() || bytes.len() - pos < 12 {
        return None;
    }
    proof {
        assert(dst_input_key_bytes()[0] == 44);
        assert(bytes@.subrange(pos as int, pos as int + 12)[0] == bytes@[pos + 0]);
    }
    if bytes[pos + 0] != 44 {
        return None;
    }
    proof {
        assert(dst_input_key_bytes()[1] == 34);
        assert(bytes@.subrange(pos as int, pos as int + 12)[1] == bytes@[pos + 1]);
    }
    if bytes[pos + 1] != 34 {
        return None;
    }
    proof {
        assert(dst_input_key_bytes()[2] == 100);
        assert(bytes@.subrange(pos as int, pos as int + 12)[2] == bytes@[pos + 2]);
    }
    if bytes[pos + 2] != 100 {
        return None;
    }
    proof {
        assert(dst_input_key_bytes()[3] == 115);
        assert(bytes@.subrange(pos as int, pos as int + 12)[3] == bytes@[pos + 3]);
    }
    if bytes[pos + 3] != 115 {
        return None;
    }
    proof {
        assert(dst_input_key_bytes()[4] == 116);
        assert(bytes@.subrange(pos as int, pos as int + 12)[4] == bytes@[pos + 4]);
    }
    if bytes[pos + 4] != 116 {
        return None;
    }
    proof {
        assert(dst_input_key_bytes()[5] == 73);
        assert(bytes@.subrange(pos as int, pos as int + 12)[5] == bytes@[pos + 5]);
    }
    if bytes[pos + 5] != 73 {
        return None;
    }
    proof {
        assert(dst_input_key_bytes()[6] == 110);
        assert(bytes@.subrange(pos as int, pos as int + 12)[6] == bytes@[pos + 6]);
    }
    if bytes[pos + 6] != 110 {
        return None;
    }
    proof {
        assert(dst_input_key_bytes()[7] == 112);
        assert(bytes@.subrange(pos as int, pos as int + 12)[7] == bytes@[pos + 7]);
    }
    if bytes[pos + 7] != 112 {
        return None;
    }
    proof {
        assert(dst_input_key_bytes()[8] == 117);
        assert(bytes@.subrange(pos as int, pos as int + 12)[8] == bytes@[pos + 8]);
    }
    if bytes[pos + 8] != 117 {
        return None;
    }
    proof {
        assert(dst_input_key_bytes()[9] == 116);
        assert(bytes@.subrange(pos as int, pos as int + 12)[9] == bytes@[pos + 9]);
    }
    if bytes[pos + 9] != 116 {
        return None;
    }
    proof {
        assert(dst_input_key_bytes()[10] == 34);
        assert(bytes@.subrange(pos as int, pos as int + 12)[10] == bytes@[pos + 10]);
    }
    if bytes[pos + 10] != 34 {
        return None;
    }
    proof {
        assert(dst_input_key_bytes()[11] == 58);
        assert(bytes@.subrange(pos as int, pos as int + 12)[11] == bytes@[pos + 11]);
    }
    if bytes[pos + 11] != 58 {
        return None;
    }
    proof {
        assert(bytes@.subrange(pos as int, pos as int + 12) =~= dst_input_key_bytes());
    }
    Some(pos + 12)
}

fn eat_object_close(bytes: &Vec<u8>, pos: usize) -> (r: Option<usize>)
    ensures
        r matches Some(p) ==> p == pos + 1 && p <= bytes@.len() && bytes@.subrange(
            pos as int,
            p as int,
        ) == object_close_bytes(),
        pos + 1 <= bytes@.len() && bytes@.subrange(pos as int, pos as int + 1)
            == object_close_bytes() ==> r == Some((pos + 1) as usize),
{
    if pos >= bytes.len() || bytes.len() - pos < 1 {
        return None;
    }
    proof {
        assert(object_close_bytes()[0] == 125);
        assert(bytes@.subrange(pos as int, pos as int + 1)[0] == bytes@[pos + 0]);
    }
    if bytes[pos + 0] != 125 {
        return None;
    }
    proof {
        assert(bytes@.subrange(pos as int, pos as int + 1) =~= object_close_bytes());
    }
    Some(pos + 1)
}

fn eat_comma(bytes: &Vec<u8>, pos: usize) -> (r: Option<usize>)
    ensures
        r matches Some(p) ==> p == pos + 1 && p <= bytes@.len() && bytes@.subrange(
            pos as int,
            p as int,
        ) == comma_bytes(),
        pos + 1 <= bytes@.len() && bytes@.subrange(pos as int, pos as int + 1)
            == comma_bytes() ==> r == Some((pos + 1) as usize),
{
    if pos >= bytes.len() || bytes.len() - pos < 1 {
        return None;
    }
    proof {
        assert(comma_bytes()[0] == 44);
        assert(bytes@.subrange(pos as int, pos as int + 1)[0] == bytes@[pos + 0]);
    }
    if bytes[pos + 0] != 44 {
        return None;
    }
    proof {
        assert(bytes@.subrange(pos as int, pos as int + 1) =~= comma_bytes());
    }
    Some(pos + 1)
}

fn eat_doc_close(bytes: &Vec<u8>, pos: usize) -> (r: Option<usize>)
    ensures
        r matches Some(p) ==> p == pos + 2 && p <= bytes@.len() && bytes@.subrange(
            pos as int,
            p as int,
        ) == doc_close_bytes(),
        pos + 2 <= bytes@.len() && bytes@.subrange(pos as int, pos as int + 2)
            == doc_close_bytes() ==> r == Some((pos + 2) as usize),
{
    if pos >= bytes.len() || bytes.len() - pos < 2 {
        return None;
    }
    proof {
        assert(doc_close_bytes()[0] == 93);
        assert(bytes@.subrange(pos as int, pos as int + 2)[0] == bytes@[pos + 0]);
    }
    if bytes[pos + 0] != 93 {
        return None;
    }
    proof {
        assert(doc_close_bytes()[1] == 125);
        assert(bytes@.subrange(pos as int, pos as int + 2)[1] == bytes@[pos + 1]);
    }
    if bytes[pos + 1] != 125 {
        return None;
    }
    proof {
        assert(bytes@.subrange(pos as int, pos as int + 2) =~= doc_close_bytes());
    }
    Some(pos + 2)
}

/// A decimal digit byte.
pub open spec fn is_digit(b: u8) -> bool {
    48 <= b <= 57
}

/// The decimal digits of `n`, most significant first.
pub open spec fn dec_bytes(n: u64) -> Seq<u8>
    decreases n,
{
    if n < 10 {
        seq![(48 + n) as u8]
    } else {
        dec_bytes(n / 10).push((48 + n % 10) as u8)
    }
}

/// The number a digit run denotes.
pub open spec fn digits_val(s: Seq<u8>) -> int
    decreases s.len(),
{
    if s.len() == 0 {
        0
    } else {
        digits_val(s.drop_last()) * 10 + (s.last() - 48)
    }
}

/// A maximal digit run denoting `n` stands at `pos`: the digits of `n`,
/// bounded by the end of the input or a non-digit byte.
pub open spec fn dec_at(bytes: Seq<u8>, pos: int, n: u64) -> bool {
    &&& pos + dec_bytes(n).len() <= bytes.len()
    &&& bytes.subrange(pos, pos + dec_bytes(n).len()) == dec_bytes(n)
    &&& (pos + dec_bytes(n).len() == bytes.len() || !is_digit(bytes[pos + dec_bytes(n).len()]))
}

/// Every byte of a decimal rendering is a digit, and there is at least one.
proof fn lemma_dec_bytes_digits(n: u64)
    ensures
        dec_bytes(n).len() >= 1,
        forall|i: int| 0 <= i < dec_bytes(n).len() ==> is_digit(#[trigger] dec_bytes(n)[i]),
    decreases n,
{
    if n >= 10 {
        lemma_dec_bytes_digits(n / 10);
        assert forall|i: int| 0 <= i < dec_bytes(n).len() implies is_digit(
            #[trigger] dec_bytes(n)[i],
        ) by {
            if i < dec_bytes(n / 10).len() {
                assert(dec_bytes(n)[i] == dec_bytes(n / 10)[i]);
            }
        }
    }
}

/// A digit run denotes a nonnegative number.
proof fn lemma_digits_val_nonneg(s: Seq<u8>)
    requires
        forall|i: int| 0 <= i < s.len() ==> is_digit(#[trigger] s[i]),
    ensures
        digits_val(s) >= 0,
    decreases s.len(),
{
    if s.len() > 0 {
        lemma_digits_val_nonneg(s.drop_last());
    }
}

/// Reading the decimal rendering of `n` back gives `n`.
proof fn lemma_digits_val_dec(n: u64)
    ensures
        digits_val(dec_bytes(n)) == n,
    decreases n,
{
    if n < 10 {
        assert((48 + n) as u8 == 48 + n);
        assert(dec_bytes(n).len() == 1);
        assert(dec_bytes(n).drop_last() =~= Seq::<u8>::empty());
        assert(dec_bytes(n).last() == (48 + n) as u8);
        assert(digits_val(dec_bytes(n)) == digits_val(dec_bytes(n).drop_last()) * 10 + (dec_bytes(
            n,
        ).last() - 48));
        assert(digits_val(dec_bytes(n).drop_last()) == 0);
    } else {
        lemma_digits_val_dec(n / 10);
        assert((48 + n % 10) as u8 == 48 + n % 10);
        assert(dec_bytes(n).drop_last() =~= dec_bytes(n / 10));
        assert(dec_bytes(n).last() == (48 + n % 10) as u8);
        assert(digits_val(dec_bytes(n)) == digits_val(dec_bytes(n).drop_last()) * 10 + (dec_bytes(
            n,
        ).last() - 48));
        assert(digits_val(dec_bytes(n).drop_last()) == digits_val(dec_bytes(n / 10)));
        assert(n / 10 * 10 + n % 10 == n);
    }
}

/// A prefix of a digit run denotes at most what the whole run denotes.
proof fn lemma_digits_prefix_le(s: Seq<u8>, j: int)
    requires
        forall|i: int| 0 <= i < s.len() ==> is_digit(#[trigger] s[i]),
        0 <= j <= s.len(),
    ensures
        0 <= digits_val(s.subrange(0, j)) <= digits_val(s),
    decreases s.len() - j,
{
    assert forall|i: int| 0 <= i < s.subrange(0, j).len() implies is_digit(
        #[trigger] s.subrange(0, j)[i],
    ) by {
        assert(s.subrange(0, j)[i] == s[i]);
    }
    lemma_digits_val_nonneg(s.subrange(0, j));
    if j == s.len() {
        assert(s.subrange(0, j) =~= s);
    } else {
        assert(s.subrange(0, j + 1).drop_last() =~= s.subrange(0, j));
        assert(s.subrange(0, j + 1).last() == s[j]);
        assert(digits_val(s.subrange(0, j + 1)) == digits_val(s.subrange(0, j)) * 10 + (s[j]
            - 48));
        lemma_digits_prefix_le(s, j + 1);
    }
}

fn push_dec(out: &mut Vec<u8>, n: u64)
    ensures
        final(out)@ == old(out)@ + dec_bytes(n),
    decreases n,
{
    if n < 10 {
        out.push((48 + n) as u8);
        proof {
            assert(out@ =~= old(out)@ + dec_bytes(n));
        }
    } else {
        push_dec(out, n / 10);
        out.push((48 + n % 10) as u8);
        proof {
            assert(out@ =~= old(out)@ + dec_bytes(n));
        }
    }
}

/// The bytes of one parameter value.
pub open spec fn params_bytes(p: ModuleParams) -> Seq<u8> {
    match p {
        ModuleParams::Gate(GateState::Open) => gate_open_params_bytes(),
        ModuleParams::Gate(GateState::Closed) => gate_closed_params_bytes(),
        ModuleParams::Vst => vst_params_bytes(),
    }
}

/// The bytes of one saved module.
pub open spec fn module_bytes(m: SavedModule) -> Seq<u8> {
    module_open_bytes() + dec_bytes(m.id) + params_key_bytes() + params_bytes(m.params)
        + object_close_bytes()
}

/// The bytes of a comma-separated module list.
pub open spec fn modules_list_bytes(s: Seq<SavedModule>) -> Seq<u8>
    decreases s.len(),
{
    if s.len() == 0 {
        Seq::<u8>::empty()
    } else if s.len() == 1 {
        module_bytes(s[0])
    } else {
        modules_list_bytes(s.drop_last()) + comma_bytes() + module_bytes(s.last())
    }
}

/// The bytes of one saved connection.
pub open spec fn conn_bytes(c: SavedConnection) -> Seq<u8> {
    conn_open_bytes() + dec_bytes(c.src_id) + src_output_key_bytes() + dec_bytes(c.src_output)
        + dst_id_key_bytes() + dec_bytes(c.dst_id) + dst_input_key_bytes() + dec_bytes(c.dst_input)
        + object_close_bytes()
}

/// The bytes of a comma-separated connection list.
pub open spec fn conns_list_bytes(s: Seq<SavedConnection>) -> Seq<u8>
    decreases s.len(),
{
    if s.len() == 0 {
        Seq::<u8>::empty()
    } else if s.len() == 1 {
        conn_bytes(s[0])
    } else {
        conns_list_bytes(s.drop_last()) + comma_bytes() + conn_bytes(s.last())
    }
}

/// The one canonical document of a workspace snapshot.
pub open spec fn workspace_bytes(ws: WorkspaceState) -> Seq<u8> {
    doc_open_bytes() + modules_list_bytes(ws.modules@) + connections_key_bytes()
        + conns_list_bytes(ws.connections@) + doc_close_bytes()
}

/// Splitting a known concatenation of two pieces at its seam.
proof fn lemma_split(bytes: Seq<u8>, pos: int, a: Seq<u8>, b: Seq<u8>)
    requires
        0 <= pos,
        pos + a.len() + b.len() <= bytes.len(),
        bytes.subrange(pos, pos + a.len() + b.len()) == a + b,
    ensures
        bytes.subrange(pos, pos + a.len()) == a,
        bytes.subrange(pos + a.len(), pos + a.len() + b.len()) == b,
{
    assert forall|i: int| 0 <= i < a.len() implies bytes.subrange(pos, pos + a.len())[i]
        == a[i] by {
        assert(bytes.subrange(pos, pos + a.len() + b.len())[i] == bytes[pos + i]);
        assert(bytes.subrange(pos, pos + a.len())[i] == bytes[pos + i]);
        assert((a + b)[i] == a[i]);
    }
    assert(bytes.subrange(pos, pos + a.len()) =~= a);
    assert forall|i: int| 0 <= i < b.len() implies bytes.subrange(
        pos + a.len(),
        pos + a.len() + b.len(),
    )[i] == b[i] by {
        assert(bytes.subrange(pos, pos + a.len() + b.len())[a.len() + i] == bytes[pos + a.len()
            + i]);
        assert(bytes.subrange(pos + a.len(), pos + a.len() + b.len())[i] == bytes[pos + a.len()
            + i]);
        assert((a + b)[a.len() + i] == b[i]);
    }
    assert(bytes.subrange(pos + a.len(), pos + a.len() + b.len()) =~= b);
}

/// A module object at `pos` splits into its five pieces, with the number
/// bounded by the comma that opens the params key.
proof fn lemma_module_decompose(bytes: Seq<u8>, pos: int, m: SavedModule)
    requires
        0 <= pos,
        pos + module_bytes(m).len() <= bytes.len(),
        bytes.subrange(pos, pos + module_bytes(m).len()) == module_bytes(m),
    ensures
        ({
            let o1 = pos + module_open_bytes().len();
            let o2 = o1 + dec_bytes(m.id).len();
            let o3 = o2 + params_key_bytes().len();
            let o4 = o3 + params_bytes(m.params).len();
            let o5 = o4 + object_close_bytes().len();
            &&& o5 == pos + module_bytes(m).len()
            &&& bytes.subrange(pos, o1) == module_open_bytes()
            &&& dec_at(bytes, o1, m.id)
            &&& bytes.subrange(o2, o3) == params_key_bytes()
            &&& bytes.subrange(o3, o4) == params_bytes(m.params)
            &&& bytes.subrange(o4, o5) == object_close_bytes()
        }),
{
    let p1 = module_open_bytes() + dec_bytes(m.id) + params_key_bytes() + params_bytes(m.params);
    lemma_split(bytes, pos, p1, object_close_bytes());
    let p2 = module_open_bytes() + dec_bytes(m.id) + params_key_bytes();
    lemma_split(bytes, pos, p2, params_bytes(m.params));
    let p3 = module_open_bytes() + dec_bytes(m.id);
    lemma_split(bytes, pos, p3, params_key_bytes());
    lemma_split(bytes, pos, module_open_bytes(), dec_bytes(m.id));
    let o1 = pos + module_open_bytes().len();
    let o2 = o1 + dec_bytes(m.id).len();
    assert(params_key_bytes()[0] == 44);
    assert(bytes.subrange(o2, o2 + params_key_bytes().len())[0] == bytes[o2]);
    assert(!is_digit(bytes[o2]));
}

/// A connection object at `pos` splits into its nine pieces, each number
/// bounded by the key or brace that follows it.
proof fn lemma_conn_decompose(bytes: Seq<u8>, pos: int, c: SavedConnection)
    requires
        0 <= pos,
        pos + conn_bytes(c).len() <= bytes.len(),
        bytes.subrange(pos, pos + conn_bytes(c).len()) == conn_bytes(c),
    ensures
        ({
            let o1 = pos + conn_open_bytes().len();
            let o2 = o1 + dec_bytes(c.src_id).len();
            let o3 = o2 + src_output_key_bytes().len();
            let o4 = o3 + dec_bytes(c.src_output).len();
            let o5 = o4 + dst_id_key_bytes().len();
            let o6 = o5 + dec_bytes(c.dst_id).len();
            let o7 = o6 + dst_input_key_bytes().len();
            let o8 = o7 + dec_bytes(c.dst_input).len();
            let o9 = o8 + object_close_bytes().len();
            &&& o9 == pos + conn_bytes(c).len()
            &&& bytes.subrange(pos, o1) == conn_open_bytes()
            &&& dec_at(bytes, o1, c.src_id)
            &&& bytes.subrange(o2, o3) == src_output_key_bytes()
            &&& dec_at(bytes, o3, c.src_output)
            &&& bytes.subrange(o4, o5) == dst_id_key_bytes()
            &&& dec_at(bytes, o5, c.dst_id)
            &&& bytes.subrange(o6, o7) == dst_input_key_bytes()
            &&& dec_at(bytes, o7, c.dst_input)
            &&& bytes.subrange(o8, o9) == object_close_bytes()
        }),
{
    let p8 = conn_open_bytes() + dec_bytes(c.src_id) + src_output_key_bytes() + dec_bytes(
        c.src_output,
    ) + dst_id_key_bytes() + dec_bytes(c.dst_id) + dst_input_key_bytes() + dec_bytes(c.dst_input);
    lemma_split(bytes, pos, p8, object_close_bytes());
    let p7 = conn_open_bytes() + dec_bytes(c.src_id) + src_output_key_bytes() + dec_bytes(
        c.src_output,
    ) + dst_id_key_bytes() + dec_bytes(c.dst_id) + dst_input_key_bytes();
    lemma_split(bytes, pos, p7, dec_bytes(c.dst_input));
    let p6 = conn_open_bytes() + dec_bytes(c.src_id) + src_output_key_bytes() + dec_bytes(
        c.src_output,
    ) + dst_id_key_bytes() + dec_bytes(c.dst_id);
    lemma_split(bytes, pos, p6, dst_input_key_bytes());
    let p5 = conn_open_bytes() + dec_bytes(c.src_id) + src_output_key_bytes() + dec_bytes(
        c.src_output,
    ) + dst_id_key_bytes();
    lemma_split(bytes, pos, p5, dec_bytes(c.dst_id));
    let p4 = conn_open_bytes() + dec_bytes(c.src_id) + src_output_key_bytes() + dec_bytes(
        c.src_output,
    );
    lemma_split(bytes, pos, p4, dst_id_key_bytes());
    let p3 = conn_open_bytes() + dec_bytes(c.src_id) + src_output_key_bytes();
    lemma_split(bytes, pos, p3, dec_bytes(c.src_output));
    let p2 = conn_open_bytes() + dec_bytes(c.src_id);
    lemma_split(bytes, pos, p2, src_output_key_bytes());
    lemma_split(bytes, pos, conn_open_bytes(), dec_bytes(c.src_id));
    let o1 = pos + conn_open_bytes().len();
    let o2 = o1 + dec_bytes(c.src_id).len();
    let o3 = o2 + src_output_key_bytes().len();
    let o4 = o3 + dec_bytes(c.src_output).len();
    let o5 = o4 + dst_id_key_bytes().len();
    let o6 = o5 + dec_bytes(c.dst_id).len();
    let o7 = o6 + dst_input_key_bytes().len();
    let o8 = o7 + dec_bytes(c.dst_input).len();
    assert(src_output_key_bytes()[0] == 44);
    assert(bytes.subrange(o2, o2 + src_output_key_bytes().len())[0] == bytes[o2]);
    assert(!is_digit(bytes[o2]));
    assert(dst_id_key_bytes()[0] == 44);
    assert(bytes.subrange(o4, o4 + dst_id_key_bytes().len())[0] == bytes[o4]);
    assert(!is_digit(bytes[o4]));
    assert(dst_input_key_bytes()[0] == 44);
    assert(bytes.subrange(o6, o6 + dst_input_key_bytes().len())[0] == bytes[o6]);
    assert(!is_digit(bytes[o6]));
    assert(object_close_bytes()[0] == 125);
    assert(bytes.subrange(o8, o8 + object_close_bytes().len())[0] == bytes[o8]);
    assert(!is_digit(bytes[o8]));
}

/// A nonempty module list reads from the front: its first module, then — if
/// more follow — a comma and the rest of the list.
proof fn lemma_modules_list_head(s: Seq<SavedModule>)
    requires
        s.len() >= 1,
    ensures
        s.len() == 1 ==> modules_list_bytes(s) == module_bytes(s[0]),
        s.len() >= 2 ==> modules_list_bytes(s) == module_bytes(s[0]) + comma_bytes()
            + modules_list_bytes(s.drop_first()),
    decreases s.len(),
{
    if s.len() == 2 {
        assert(s.drop_last() =~= seq![s[0]]);
        assert(s.drop_first() =~= seq![s[1]]);
        assert(modules_list_bytes(s.drop_last()) == module_bytes(s[0]));
        assert(modules_list_bytes(s.drop_first()) == module_bytes(s[1]));
    } else if s.len() > 2 {
        lemma_modules_list_head(s.drop_last());
        assert(s.drop_last()[0] == s[0]);
        assert(s.drop_last().drop_first() =~= s.drop_first().drop_last());
        assert(s.drop_first().last() == s.last());
        assert(s.drop_first().len() >= 2);
        assert(modules_list_bytes(s) == modules_list_bytes(s.drop_last()) + comma_bytes()
            + module_bytes(s.last()));
        assert(modules_list_bytes(s.drop_first()) == modules_list_bytes(s.drop_first().drop_last())
            + comma_bytes() + module_bytes(s.drop_first().last()));
        assert(modules_list_bytes(s) =~= module_bytes(s[0]) + comma_bytes() + modules_list_bytes(
            s.drop_first(),
        ));
    }
}

/// A nonempty connection list reads from the front in the same way.
proof fn lemma_conns_list_head(s: Seq<SavedConnection>)
    requires
        s.len() >= 1,
    ensures
        s.len() == 1 ==> conns_list_bytes(s) == conn_bytes(s[0]),
        s.len() >= 2 ==> conns_list_bytes(s) == conn_bytes(s[0]) + comma_bytes()
            + conns_list_bytes(s.drop_first()),
    decreases s.len(),
{
    if s.len() == 2 {
        assert(s.drop_last() =~= seq![s[0]]);
        assert(s.drop_first() =~= seq![s[1]]);
        assert(conns_list_bytes(s.drop_last()) == conn_bytes(s[0]));
        assert(conns_list_bytes(s.drop_first()) == conn_bytes(s[1]));
    } else if s.len() > 2 {
        lemma_conns_list_head(s.drop_last());
        assert(s.drop_last()[0] == s[0]);
        assert(s.drop_last().drop_first() =~= s.drop_first().drop_last());
        assert(s.drop_first().last() == s.last());
        assert(s.drop_first().len() >= 2);
        assert(conns_list_bytes(s) == conns_list_bytes(s.drop_last()) + comma_bytes() + conn_bytes(
            s.last(),
        ));
        assert(conns_list_bytes(s.drop_first()) == conns_list_bytes(s.drop_first().drop_last())
            + comma_bytes() + conn_bytes(s.drop_first().last()));
        assert(conns_list_bytes(s) =~= conn_bytes(s[0]) + comma_bytes() + conns_list_bytes(
            s.drop_first(),
        ));
    }
}

fn push_module(out: &mut Vec<u8>, m: SavedModule)
    ensures
        final(out)@ == old(out)@ + module_bytes(m),
{
    push_module_open(out);
    push_dec(out, m.id);
    push_params_key(out);
    match m.params {
        ModuleParams::Gate(GateState::Open) => push_gate_open_params(out),
        ModuleParams::Gate(GateState::Closed) => push_gate_closed_params(out),
        ModuleParams::Vst => push_vst_params(out),
    }
    push_object_close(out);
    proof {
        assert(out@ =~= old(out)@ + module_bytes(m));
    }
}

fn push_conn(out: &mut Vec<u8>, c: SavedConnection)
    ensures
        final(out)@ == old(out)@ + conn_bytes(c),
{
    push_conn_open(out);
    push_dec(out, c.src_id);
    push_src_output_key(out);
    push_dec(out, c.src_output);
    push_dst_id_key(out);
    push_dec(out, c.dst_id);
    push_dst_input_key(out);
    push_dec(out, c.dst_input);
    push_object_close(out);
    proof {
        assert(out@ =~= old(out)@ + conn_bytes(c));
    }
}

/// Serializes a snapshot to its canonical document.
pub fn serialize_workspace(ws: &WorkspaceState) -> (r: Vec<u8>)
    ensures
        r@ == workspace_bytes(*ws),
{
    let mut out: Vec<u8> = Vec::new();
    push_doc_open(&mut out);
    let mut i: usize = 0;
    while i < ws.modules.len()
        invariant
            i <= ws.modules@.len(),
            out@ == doc_open_bytes() + modules_list_bytes(ws.modules@.subrange(0, i as int)),
        decreases ws.modules@.len() - i,
    {
        if i > 0 {
            push_comma(&mut out);
        }
        push_module(&mut out, ws.modules[i]);
        proof {
            let s_post = ws.modules@.subrange(0, i + 1);
            assert(s_post.drop_last() =~= ws.modules@.subrange(0, i as int));
            assert(s_post.last() == ws.modules@[i as int]);
            if i == 0 {
                assert(modules_list_bytes(s_post) == module_bytes(s_post[0]));
            }
            assert(out@ =~= doc_open_bytes() + modules_list_bytes(s_post));
        }
        i += 1;
    }
    proof {
        assert(ws.modules@.subrange(0, ws.modules@.len() as int) =~= ws.modules@);
    }
    push_connections_key(&mut out);
    let mut k: usize = 0;
    while k < ws.connections.len()
        invariant
            k <= ws.connections@.len(),
            out@ == doc_open_bytes() + modules_list_bytes(ws.modules@) + connections_key_bytes()
                + conns_list_bytes(ws.connections@.subrange(0, k as int)),
        decreases ws.connections@.len() - k,
    {
        if k > 0 {
            push_comma(&mut out);
        }
        push_conn(&mut out, ws.connections[k]);
        proof {
            let s_post = ws.connections@.subrange(0, k + 1);
            assert(s_post.drop_last() =~= ws.connections@.subrange(0, k as int));
            assert(s_post.last() == ws.connections@[k as int]);
            if k == 0 {
                assert(conns_list_bytes(s_post) == conn_bytes(s_post[0]));
            }
            assert(out@ =~= doc_open_bytes() + modules_list_bytes(ws.modules@)
                + connections_key_bytes() + conns_list_bytes(s_post));
        }
        k += 1;
    }
    proof {
        assert(ws.connections@.subrange(0, ws.connections@.len() as int) =~= ws.connections@);
    }
    push_doc_close(&mut out);
    proof {
        assert(out@ =~= workspace_bytes(*ws));
    }
    out
}

fn parse_u64(bytes: &Vec<u8>, pos: usize) -> (r: Option<(u64, usize)>)
    ensures
        r matches Some(v) ==> pos < v.1 <= bytes@.len(),
        forall|n: u64|
            #[trigger] dec_at(bytes@, pos as int, n) ==> r == Some(
                (n, (pos + dec_bytes(n).len()) as usize),
            ),
{
    if pos >= bytes.len() {
        proof {
            assert forall|n: u64| !(#[trigger] dec_at(bytes@, pos as int, n)) by {
                lemma_dec_bytes_digits(n);
            }
        }
        return None;
    }
    let mut i = pos;
    let mut acc: u64 = 0;
    let mut any = false;
    while i < bytes.len()
        invariant
            pos < bytes@.len(),
            pos <= i <= bytes@.len(),
            forall|j: int| pos <= j < i ==> is_digit(#[trigger] bytes@[j]),
            acc as int == digits_val(bytes@.subrange(pos as int, i as int)),
            any <==> i > pos,
        decreases bytes@.len() - i,
    {
        let b = bytes[i];
        if b < 48 || b > 57 {
            if any {
                proof {
                    assert forall|n: u64| #[trigger] dec_at(bytes@, pos as int, n) implies acc
                        == n && i as int == pos + dec_bytes(n).len() by {
                        lemma_dec_bytes_digits(n);
                        let l = dec_bytes(n).len() as int;
                        if (i as int) < pos + l {
                            assert(bytes@.subrange(pos as int, pos + l)[i - pos] == bytes@[
                                i as int]);
                            assert(is_digit(dec_bytes(n)[i - pos]));
                            assert(false);
                        }
                        if (i as int) > pos + l {
                            assert(is_digit(bytes@[pos + l]));
                            assert(false);
                        }
                        assert(bytes@.subrange(pos as int, i as int) == dec_bytes(n));
                        lemma_digits_val_dec(n);
                    }
                }
                return Some((acc, i));
            } else {
                proof {
                    assert forall|n: u64| !(#[trigger] dec_at(bytes@, pos as int, n)) by {
                        lemma_dec_bytes_digits(n);
                        if dec_at(bytes@, pos as int, n) {
                            assert(bytes@.subrange(
                                pos as int,
                                pos + dec_bytes(n).len(),
                            )[0] == bytes@[pos as int]);
                            assert(is_digit(dec_bytes(n)[0]));
                            assert(false);
                        }
                    }
                }
                return None;
            }
        }
        let d = (b - 48) as u64;
        if acc > (u64::MAX - d) / 10 {
            proof {
                assert forall|n: u64| !(#[trigger] dec_at(bytes@, pos as int, n)) by {
                    if dec_at(bytes@, pos as int, n) {
                        lemma_dec_bytes_digits(n);
                        lemma_digits_val_dec(n);
                        let l = dec_bytes(n).len() as int;
                        if (i as int) >= pos + l {
                            if pos + l == bytes@.len() {
                                assert(false);
                            } else if (i as int) == pos + l {
                                assert(!is_digit(bytes@[pos + l]));
                                assert(false);
                            } else {
                                assert(is_digit(bytes@[pos + l]));
                                assert(false);
                            }
                        }
                        assert forall|jj: int|
                            #![trigger dec_bytes(n).subrange(0, i + 1 - pos)[jj]]
                            0 <= jj < i + 1 - pos implies bytes@.subrange(pos as int, i + 1)[jj]
                            == dec_bytes(n).subrange(0, i + 1 - pos)[jj] by {
                            assert(bytes@.subrange(pos as int, pos + l)[jj] == bytes@[pos + jj]);
                        }
                        assert(bytes@.subrange(pos as int, i + 1) =~= dec_bytes(n).subrange(
                            0,
                            i + 1 - pos,
                        ));
                        lemma_digits_prefix_le(dec_bytes(n), i + 1 - pos);
                        assert(bytes@.subrange(pos as int, i + 1).drop_last() =~= bytes@.subrange(
                            pos as int,
                            i as int,
                        ));
                        assert(bytes@.subrange(pos as int, i + 1).last() == bytes@[i as int]);
                        assert(digits_val(bytes@.subrange(pos as int, i + 1)) == (acc as int) * 10
                            + (d as int));
                        assert((acc as int) * 10 + (d as int) <= n as int);
                        assert(acc as int <= (u64::MAX as int - d as int) / 10) by (nonlinear_arith)
                            requires
                                (acc as int) * 10 + (d as int) <= u64::MAX as int,
                                0 <= d as int <= 9,
                                acc as int >= 0,
                        ;
                        assert(false);
                    }
                }
            }
            return None;
        }
        proof {
            assert((acc as int) * 10 + (d as int) <= u64::MAX as int) by (nonlinear_arith)
                requires
                    acc as int <= (u64::MAX as int - d as int) / 10,
                    0 <= d as int <= 9,
            ;
            assert(bytes@.subrange(pos as int, i + 1).drop_last() =~= bytes@.subrange(
                pos as int,
                i as int,
            ));
            assert(bytes@.subrange(pos as int, i + 1).last() == bytes@[i as int]);
        }
        acc = acc * 10 + d;
        any = true;
        i += 1;
    }
    proof {
        assert(any);
        assert forall|n: u64| #[trigger] dec_at(bytes@, pos as int, n) implies acc == n && i as int
            == pos + dec_bytes(n).len() by {
            lemma_dec_bytes_digits(n);
            let l = dec_bytes(n).len() as int;
            if (i as int) < pos + l {
                assert(bytes@.subrange(pos as int, pos + l)[i - pos] == bytes@[i as int]);
                assert(is_digit(dec_bytes(n)[i - pos]));
                assert(i < bytes@.len());
                assert(false);
            }
            if (i as int) > pos + l {
                assert(is_digit(bytes@[pos + l]));
                assert(false);
            }
            assert(bytes@.subrange(pos as int, i as int) == dec_bytes(n));
            lemma_digits_val_dec(n);
        }
    }
    Some((acc, i))
}

/// The three parameter documents are told apart by content.
proof fn lemma_params_distinct()
    ensures
        gate_open_params_bytes().len() == 30,
        gate_closed_params_bytes().len() == 32,
        vst_params_bytes().len() == 14,
        gate_open_params_bytes()[24] == 111,
        gate_closed_params_bytes()[24] == 99,
        gate_open_params_bytes()[9] == 103,
        gate_closed_params_bytes()[9] == 103,
        vst_params_bytes()[9] == 118,
{
}

/// Whether the bytes of parameter value `p` stand at `pos`.
pub open spec fn params_at(bytes: Seq<u8>, pos: int, p: ModuleParams) -> bool {
    &&& pos + params_bytes(p).len() <= bytes.len()
    &&& bytes.subrange(pos, pos + params_bytes(p).len()) == params_bytes(p)
}

fn parse_params(bytes: &Vec<u8>, pos: usize) -> (r: Option<(ModuleParams, usize)>)
    ensures
        r matches Some(v) ==> pos < v.1 <= bytes@.len(),
        forall|p: ModuleParams|
            #[trigger] params_at(bytes@, pos as int, p) ==> r == Some(
                (p, (pos + params_bytes(p).len()) as usize),
            ),
{
    proof {
        lemma_params_distinct();
    }
    let r1 = eat_gate_open_params(bytes, pos);
    match r1 {
        Some(p) => {
            proof {
                assert forall|p0: ModuleParams| #[trigger] params_at(bytes@, pos as int, p0)
                    implies p0 == ModuleParams::Gate(GateState::Open) by {
                    if p0 == ModuleParams::Gate(GateState::Closed) {
                        assert(bytes@.subrange(pos as int, pos + 30)[24] == bytes@[pos + 24]);
                        assert(bytes@.subrange(pos as int, pos + 32)[24] == bytes@[pos + 24]);
                        assert(false);
                    }
                    if p0 == ModuleParams::Vst {
                        assert(bytes@.subrange(pos as int, pos + 30)[9] == bytes@[pos + 9]);
                        assert(bytes@.subrange(pos as int, pos + 14)[9] == bytes@[pos + 9]);
                        assert(false);
                    }
                }
            }
            Some((ModuleParams::Gate(GateState::Open), p))
        },
        None => {
            let r2 = eat_gate_closed_params(bytes, pos);
            match r2 {
                Some(p) => {
                    proof {
                        assert forall|p0: ModuleParams| #[trigger] params_at(bytes@, pos as int, p0)
                            implies p0 == ModuleParams::Gate(GateState::Closed) by {
                            if p0 == ModuleParams::Gate(GateState::Open) {
                                assert(false);
                            }
                            if p0 == ModuleParams::Vst {
                                assert(bytes@.subrange(pos as int, pos + 32)[9] == bytes@[pos
                                    + 9]);
                                assert(bytes@.subrange(pos as int, pos + 14)[9] == bytes@[pos
                                    + 9]);
                                assert(false);
                            }
                        }
                    }
                    Some((ModuleParams::Gate(GateState::Closed), p))
                },
                None => {
                    let r3 = eat_vst_params(bytes, pos);
                    match r3 {
                        Some(p) => {
                            proof {
                                assert forall|p0: ModuleParams|
                                    #[trigger] params_at(bytes@, pos as int, p0) implies p0
                                    == ModuleParams::Vst by {
                                    if p0 == ModuleParams::Gate(GateState::Open) {
                                        assert(false);
                                    }
                                    if p0 == ModuleParams::Gate(GateState::Closed) {
                                        assert(false);
                                    }
                                }
                            }
                            Some((ModuleParams::Vst, p))
                        },
                        None => {
                            proof {
                                assert forall|p0: ModuleParams|
                                    !(#[trigger] params_at(bytes@, pos as int, p0)) by {
                                    if params_at(bytes@, pos as int, p0) {
                                        match p0 {
                                            ModuleParams::Gate(GateState::Open) => {
                                                assert(false);
                                            },
                                            ModuleParams::Gate(GateState::Closed) => {
                                                assert(false);
                                            },
                                            ModuleParams::Vst => {
                                                assert(false);
                                            },
                                        }
                                    }
                                }
                            }
                            None
                        },
                    }
                },
            }
        },
    }
}

/// Whether the bytes of module `m` stand at `pos`.
pub open spec fn module_at(bytes: Seq<u8>, pos: int, m: SavedModule) -> bool {
    &&& pos + module_bytes(m).len() <= bytes.len()
    &&& bytes.subrange(pos, pos + module_bytes(m).len()) == module_bytes(m)
}

fn parse_module(bytes: &Vec<u8>, pos: usize) -> (r: Option<(SavedModule, usize)>)
    ensures
        r matches Some(v) ==> pos < v.1 <= bytes@.len(),
        forall|m: SavedModule|
            #[trigger] module_at(bytes@, pos as int, m) ==> r == Some(
                (m, (pos + module_bytes(m).len()) as usize),
            ),
{
    let _len_bound = bytes.len();
    proof {
        assert(bytes@.len() <= usize::MAX);
    }
    let r1 = eat_module_open(bytes, pos);
    let p1 = match r1 {
        Some(p) => p,
        None => {
            proof {
                assert forall|m: SavedModule| !(#[trigger] module_at(bytes@, pos as int, m)) by {
                    if module_at(bytes@, pos as int, m) {
                        lemma_module_decompose(bytes@, pos as int, m);
                        assert(false);
                    }
                }
            }
            return None;
        },
    };
    let r2 = parse_u64(bytes, p1);
    let (id, p2) = match r2 {
        Some(v) => v,
        None => {
            proof {
                assert forall|m: SavedModule| !(#[trigger] module_at(bytes@, pos as int, m)) by {
                    if module_at(bytes@, pos as int, m) {
                        lemma_module_decompose(bytes@, pos as int, m);
                        assert(dec_at(bytes@, p1 as int, m.id));
                        assert(false);
                    }
                }
            }
            return None;
        },
    };
    let r3 = eat_params_key(bytes, p2);
    let p3 = match r3 {
        Some(p) => p,
        None => {
            proof {
                assert forall|m: SavedModule| !(#[trigger] module_at(bytes@, pos as int, m)) by {
                    if module_at(bytes@, pos as int, m) {
                        lemma_module_decompose(bytes@, pos as int, m);
                        assert(dec_at(bytes@, p1 as int, m.id));
                        assert(false);
                    }
                }
            }
            return None;
        },
    };
    let r4 = parse_params(bytes, p3);
    let (params, p4) = match r4 {
        Some(v) => v,
        None => {
            proof {
                assert forall|m: SavedModule| !(#[trigger] module_at(bytes@, pos as int, m)) by {
                    if module_at(bytes@, pos as int, m) {
                        lemma_module_decompose(bytes@, pos as int, m);
                        assert(dec_at(bytes@, p1 as int, m.id));
                        assert(params_at(bytes@, p3 as int, m.params));
                        assert(false);
                    }
                }
            }
            return None;
        },
    };
    let r5 = eat_object_close(bytes, p4);
    let p5 = match r5 {
        Some(p) => p,
        None => {
            proof {
                assert forall|m: SavedModule| !(#[trigger] module_at(bytes@, pos as int, m)) by {
                    if module_at(bytes@, pos as int, m) {
                        lemma_module_decompose(bytes@, pos as int, m);
                        assert(dec_at(bytes@, p1 as int, m.id));
                        assert(params_at(bytes@, p3 as int, m.params));
                        assert(false);
                    }
                }
            }
            return None;
        },
    };
    proof {
        assert forall|m: SavedModule| #[trigger] module_at(bytes@, pos as int, m) implies id == m.id
            && params == m.params && p5 as int == pos + module_bytes(m).len() by {
            lemma_module_decompose(bytes@, pos as int, m);
            assert(dec_at(bytes@, p1 as int, m.id));
            assert(params_at(bytes@, p3 as int, m.params));
        }
    }
    Some((SavedModule { id, params }, p5))
}

/// Whether the bytes of connection `c` stand at `pos`.
pub open spec fn conn_at(bytes: Seq<u8>, pos: int, c: SavedConnection) -> bool {
    &&& pos + conn_bytes(c).len() <= bytes.len()
    &&& bytes.subrange(pos, pos + conn_bytes(c).len()) == conn_bytes(c)
}

#[verifier::rlimit(100)]
fn parse_conn(bytes: &Vec<u8>, pos: usize) -> (r: Option<(SavedConnection, usize)>)
    ensures
        r matches Some(v) ==> pos < v.1 <= bytes@.len(),
        forall|c: SavedConnection|
            #[trigger] conn_at(bytes@, pos as int, c) ==> r == Some(
                (c, (pos + conn_bytes(c).len()) as usize),
            ),
{
    let _len_bound = bytes.len();
    proof {
        assert(bytes@.len() <= usize::MAX);
    }
    let r1 = eat_conn_open(bytes, pos);
    let p1 = match r1 {
        Some(p) => p,
        None => {
            proof {
                assert forall|c: SavedConnection| !(#[trigger] conn_at(bytes@, pos as int, c)) by {
                    if conn_at(bytes@, pos as int, c) {
                        lemma_conn_decompose(bytes@, pos as int, c);
                        assert(false);
                    }
                }
            }
            return None;
        },
    };
    let r2 = parse_u64(bytes, p1);
    let (src_id, p2) = match r2 {
        Some(v) => v,
        None => {
            proof {
                assert forall|c: SavedConnection| !(#[trigger] conn_at(bytes@, pos as int, c)) by {
                    if conn_at(bytes@, pos as int, c) {
                        lemma_conn_decompose(bytes@, pos as int, c);
                        assert(dec_at(bytes@, p1 as int, c.src_id));
                        assert(false);
                    }
                }
            }
            return None;
        },
    };
    let r3 = eat_src_output_key(bytes, p2);
    let p3 = match r3 {
        Some(p) => p,
        None => {
            proof {
                assert forall|c: SavedConnection| !(#[trigger] conn_at(bytes@, pos as int, c)) by {
                    if conn_at(bytes@, pos as int, c) {
                        lemma_conn_decompose(bytes@, pos as int, c);
                        assert(dec_at(bytes@, p1 as int, c.src_id));
                        assert(false);
                    }
                }
            }
            return None;
        },
    };
    let r4 = parse_u64(bytes, p3);
    let (src_output, p4) = match r4 {
        Some(v) => v,
        None => {
            proof {
                assert forall|c: SavedConnection| !(#[trigger] conn_at(bytes@, pos as int, c)) by {
                    if conn_at(bytes@, pos as int, c) {
                        lemma_conn_decompose(bytes@, pos as int, c);
                        assert(dec_at(bytes@, p1 as int, c.src_id));
                        assert(dec_at(bytes@, p3 as int, c.src_output));
                        assert(false);
                    }
                }
            }
            return None;
        },
    };
    let r5 = eat_dst_id_key(bytes, p4);
    let p5 = match r5 {
        Some(p) => p,
        None => {
            proof {
                assert forall|c: SavedConnection| !(#[trigger] conn_at(bytes@, pos as int, c)) by {
                    if conn_at(bytes@, pos as int, c) {
                        lemma_conn_decompose(bytes@, pos as int, c);
                        assert(dec_at(bytes@, p1 as int, c.src_id));
                        assert(dec_at(bytes@, p3 as int, c.src_output));
                        assert(false);
                    }
                }
            }
            return None;
        },
    };
    let r6 = parse_u64(bytes, p5);
    let (dst_id, p6) = match r6 {
        Some(v) => v,
        None => {
            proof {
                assert forall|c: SavedConnection| !(#[trigger] conn_at(bytes@, pos as int, c)) by {
                    if conn_at(bytes@, pos as int, c) {
                        lemma_conn_decompose(bytes@, pos as int, c);
                        assert(dec_at(bytes@, p1 as int, c.src_id));
                        assert(dec_at(bytes@, p3 as int, c.src_output));
                        assert(dec_at(bytes@, p5 as int, c.dst_id));
                        assert(false);
                    }
                }
            }
            return None;
        },
    };
    let r7 = eat_dst_input_key(bytes, p6);
    let p7 = match r7 {
        Some(p) => p,
        None => {
            proof {
                assert forall|c: SavedConnection| !(#[trigger] conn_at(bytes@, pos as int, c)) by {
                    if conn_at(bytes@, pos as int, c) {
                        lemma_conn_decompose(bytes@, pos as int, c);
                        assert(dec_at(bytes@, p1 as int, c.src_id));
                        assert(dec_at(bytes@, p3 as int, c.src_output));
                        assert(dec_at(bytes@, p5 as int, c.dst_id));
                        assert(false);
                    }
                }
            }
            return None;
        },
    };
    let r8 = parse_u64(bytes, p7);
    let (dst_input, p8) = match r8 {
        Some(v) => v,
        None => {
            proof {
                assert forall|c: SavedConnection| !(#[trigger] conn_at(bytes@, pos as int, c)) by {
                    if conn_at(bytes@, pos as int, c) {
                        lemma_conn_decompose(bytes@, pos as int, c);
                        assert(dec_at(bytes@, p1 as int, c.src_id));
                        assert(dec_at(bytes@, p3 as int, c.src_output));
                        assert(dec_at(bytes@, p5 as int, c.dst_id));
                        assert(dec_at(bytes@, p7 as int, c.dst_input));
                        assert(false);
                    }
                }
            }
            return None;
        },
    };
    let r9 = eat_object_close(bytes, p8);
    let p9 = match r9 {
        Some(p) => p,
        None => {
            proof {
                assert forall|c: SavedConnection| !(#[trigger] conn_at(bytes@, pos as int, c)) by {
                    if conn_at(bytes@, pos as int, c) {
                        lemma_conn_decompose(bytes@, pos as int, c);
                        assert(dec_at(bytes@, p1 as int, c.src_id));
                        assert(dec_at(bytes@, p3 as int, c.src_output));
                        assert(dec_at(bytes@, p5 as int, c.dst_id));
                        assert(dec_at(bytes@, p7 as int, c.dst_input));
                        assert(false);
                    }
                }
            }
            return None;
        },
    };
    proof {
        assert forall|c: SavedConnection| #[trigger] conn_at(bytes@, pos as int, c) implies src_id
            == c.src_id && src_output == c.src_output && dst_id == c.dst_id && dst_input
            == c.dst_input && p9 as int == pos + conn_bytes(c).len() by {
            lemma_conn_decompose(bytes@, pos as int, c);
            assert(dec_at(bytes@, p1 as int, c.src_id));
            assert(dec_at(bytes@, p3 as int, c.src_output));
            assert(dec_at(bytes@, p5 as int, c.dst_id));
            assert(dec_at(bytes@, p7 as int, c.dst_input));
        }
    }
    Some((SavedConnection { src_id, src_output, dst_id, dst_input }, p9))
}

/// Whether a nonempty module list stands at `pos`, terminated by the bracket
/// that opens the connections key.
pub open spec fn modules_list_at(bytes: Seq<u8>, pos: int, s: Seq<SavedModule>) -> bool {
    &&& s.len() >= 1
    &&& pos + modules_list_bytes(s).len() < bytes.len()
    &&& bytes.subrange(pos, pos + modules_list_bytes(s).len()) == modules_list_bytes(s)
    &&& bytes[pos + modules_list_bytes(s).len()] == 93
}

fn parse_modules(bytes: &Vec<u8>, pos: usize, out: &mut Vec<SavedModule>) -> (r: Option<usize>)
    ensures
        r matches Some(p) ==> pos < p <= bytes@.len(),
        forall|s: Seq<SavedModule>|
            #[trigger] modules_list_at(bytes@, pos as int, s) ==> r == Some(
                ((pos + modules_list_bytes(s).len()) as usize),
            ) && final(out)@ == old(out)@ + s,
    decreases bytes@.len() - pos,
{
    let _len_bound = bytes.len();
    proof {
        assert(bytes@.len() <= usize::MAX);
    }
    let pm = parse_module(bytes, pos);
    match pm {
        None => {
            proof {
                assert forall|s: Seq<SavedModule>|
                    !(#[trigger] modules_list_at(bytes@, pos as int, s)) by {
                    if modules_list_at(bytes@, pos as int, s) {
                        lemma_modules_list_head(s);
                        if s.len() == 1 {
                            assert(module_at(bytes@, pos as int, s[0]));
                        } else {
                            lemma_split(
                                bytes@,
                                pos as int,
                                module_bytes(s[0]) + comma_bytes(),
                                modules_list_bytes(s.drop_first()),
                            );
                            lemma_split(bytes@, pos as int, module_bytes(s[0]), comma_bytes());
                            assert(module_at(bytes@, pos as int, s[0]));
                        }
                        assert(false);
                    }
                }
            }
            None
        },
        Some((m, p1)) => {
            out.push(m);
            let ghost mid = out@;
            let ec = eat_comma(bytes, p1);
            match ec {
                Some(p2) => {
                    let rr = parse_modules(bytes, p2, out);
                    proof {
                        assert forall|s: Seq<SavedModule>|
                            #[trigger] modules_list_at(bytes@, pos as int, s) implies rr == Some(
                            ((pos + modules_list_bytes(s).len()) as usize),
                        ) && out@ == old(out)@ + s by {
                            lemma_modules_list_head(s);
                            if s.len() == 1 {
                                assert(module_at(bytes@, pos as int, s[0]));
                                assert(p1 as int == pos + module_bytes(s[0]).len());
                                assert(bytes@.subrange(p1 as int, p1 + 1)[0] == bytes@[p1 as int]);
                                assert(comma_bytes()[0] == 44);
                                assert(false);
                            } else {
                                lemma_split(
                                    bytes@,
                                    pos as int,
                                    module_bytes(s[0]) + comma_bytes(),
                                    modules_list_bytes(s.drop_first()),
                                );
                                lemma_split(bytes@, pos as int, module_bytes(s[0]), comma_bytes());
                                assert(module_at(bytes@, pos as int, s[0]));
                                assert(m == s[0] && p1 as int == pos + module_bytes(s[0]).len());
                                assert(p2 == p1 + 1);
                                assert(modules_list_at(bytes@, p2 as int, s.drop_first()));
                                assert(out@ == mid + s.drop_first());
                                assert(out@ =~= old(out)@ + s);
                                assert(pos + modules_list_bytes(s).len() == p2
                                    + modules_list_bytes(s.drop_first()).len());
                            }
                        }
                    }
                    rr
                },
                None => {
                    proof {
                        assert forall|s: Seq<SavedModule>|
                            #[trigger] modules_list_at(bytes@, pos as int, s) implies p1 as int
                            == pos + modules_list_bytes(s).len() && out@ == old(out)@ + s by {
                            lemma_modules_list_head(s);
                            if s.len() >= 2 {
                                lemma_split(
                                    bytes@,
                                    pos as int,
                                    module_bytes(s[0]) + comma_bytes(),
                                    modules_list_bytes(s.drop_first()),
                                );
                                lemma_split(bytes@, pos as int, module_bytes(s[0]), comma_bytes());
                                assert(module_at(bytes@, pos as int, s[0]));
                                assert(p1 as int == pos + module_bytes(s[0]).len());
                                assert(p1 + 1 <= bytes@.len());
                                assert(bytes@.subrange(p1 as int, p1 + 1) =~= comma_bytes());
                                assert(false);
                            }
                            assert(module_at(bytes@, pos as int, s[0]));
                            assert(m == s[0]);
                            assert(out@ =~= old(out)@ + s);
                        }
                    }
                    Some(p1)
                },
            }
        },
    }
}

/// Whether a nonempty connection list stands at `pos`, terminated by the
/// bracket that opens the closing of the document.
pub open spec fn conns_list_at(bytes: Seq<u8>, pos: int, s: Seq<SavedConnection>) -> bool {
    &&& s.len() >= 1
    &&& pos + conns_list_bytes(s).len() < bytes.len()
    &&& bytes.subrange(pos, pos + conns_list_bytes(s).len()) == conns_list_bytes(s)
    &&& bytes[pos + conns_list_bytes(s).len()] == 93
}

fn parse_conns(bytes: &Vec<u8>, pos: usize, out: &mut Vec<SavedConnection>) -> (r: Option<usize>)
    ensures
        r matches Some(p) ==> pos < p <= bytes@.len(),
        forall|s: Seq<SavedConnection>|
            #[trigger] conns_list_at(bytes@, pos as int, s) ==> r == Some(
                ((pos + conns_list_bytes(s).len()) as usize),
            ) && final(out)@ == old(out)@ + s,
    decreases bytes@.len() - pos,
{
    let _len_bound = bytes.len();
    proof {
        assert(bytes@.len() <= usize::MAX);
    }
    let pc = parse_conn(bytes, pos);
    match pc {
        None => {
            proof {
                assert forall|s: Seq<SavedConnection>|
                    !(#[trigger] conns_list_at(bytes@, pos as int, s)) by {
                    if conns_list_at(bytes@, pos as int, s) {
                        lemma_conns_list_head(s);
                        if s.len() == 1 {
                            assert(conn_at(bytes@, pos as int, s[0]));
                        } else {
                            lemma_split(
                                bytes@,
                                pos as int,
                                conn_bytes(s[0]) + comma_bytes(),
                                conns_list_bytes(s.drop_first()),
                            );
                            lemma_split(bytes@, pos as int, conn_bytes(s[0]), comma_bytes());
                            assert(conn_at(bytes@, pos as int, s[0]));
                        }
                        assert(false);
                    }
                }
            }
            None
        },
        Some((c, p1)) => {
            out.push(c);
            let ghost mid = out@;
            let ec = eat_comma(bytes, p1);
            match ec {
                Some(p2) => {
                    let rr = parse_conns(bytes, p2, out);
                    proof {
                        assert forall|s: Seq<SavedConnection>|
                            #[trigger] conns_list_at(bytes@, pos as int, s) implies rr == Some(
                            ((pos + conns_list_bytes(s).len()) as usize),
                        ) && out@ == old(out)@ + s by {
                            lemma_conns_list_head(s);
                            if s.len() == 1 {
                                assert(conn_at(bytes@, pos as int, s[0]));
                                assert(p1 as int == pos + conn_bytes(s[0]).len());
                                assert(bytes@.subrange(p1 as int, p1 + 1)[0] == bytes@[p1 as int]);
                                assert(comma_bytes()[0] == 44);
                                assert(false);
                            } else {
                                lemma_split(
                                    bytes@,
                                    pos as int,
                                    conn_bytes(s[0]) + comma_bytes(),
                                    conns_list_bytes(s.drop_first()),
                                );
                                lemma_split(bytes@, pos as int, conn_bytes(s[0]), comma_bytes());
                                assert(conn_at(bytes@, pos as int, s[0]));
                                assert(c == s[0] && p1 as int == pos + conn_bytes(s[0]).len());
                                assert(p2 == p1 + 1);
                                assert(conns_list_at(bytes@, p2 as int, s.drop_first()));
                                assert(out@ == mid + s.drop_first());
                                assert(out@ =~= old(out)@ + s);
                                assert(pos + conns_list_bytes(s).len() == p2 + conns_list_bytes(
                                    s.drop_first(),
                                ).len());
                            }
                        }
                    }
                    rr
                },
                None => {
                    proof {
                        assert forall|s: Seq<SavedConnection>|
                            #[trigger] conns_list_at(bytes@, pos as int, s) implies p1 as int == pos
                            + conns_list_bytes(s).len() && out@ == old(out)@ + s by {
                            lemma_conns_list_head(s);
                            if s.len() >= 2 {
                                lemma_split(
                                    bytes@,
                                    pos as int,
                                    conn_bytes(s[0]) + comma_bytes(),
                                    conns_list_bytes(s.drop_first()),
                                );
                                lemma_split(bytes@, pos as int, conn_bytes(s[0]), comma_bytes());
                                assert(conn_at(bytes@, pos as int, s[0]));
                                assert(p1 as int == pos + conn_bytes(s[0]).len());
                                assert(p1 + 1 <= bytes@.len());
                                assert(bytes@.subrange(p1 as int, p1 + 1) =~= comma_bytes());
                                assert(false);
                            }
                            assert(conn_at(bytes@, pos as int, s[0]));
                            assert(c == s[0]);
                            assert(out@ =~= old(out)@ + s);
                        }
                    }
                    Some(p1)
                },
            }
        },
    }
}

fn bytes_eq(a: &Vec<u8>, b: &Vec<u8>) -> (r: bool)
    ensures
        r <==> a@ == b@,
{
    if a.len() != b.len() {
        proof {
            assert(a@ != b@);
        }
        return false;
    }
    let mut i: usize = 0;
    while i < a.len()
        invariant
            a@.len() == b@.len(),
            i <= a@.len(),
            forall|j: int| 0 <= j < i ==> a@[j] == b@[j],
        decreases a@.len() - i,
    {
        if a[i] != b[i] {
            return false;
        }
        i += 1;
    }
    proof {
        assert(a@ =~= b@);
    }
    true
}

/// The canonical document splits into its five sections.
proof fn lemma_workspace_decompose(bytes: Seq<u8>, ws0: WorkspaceState)
    requires
        bytes == workspace_bytes(ws0),
    ensures
        ({
            let lm = modules_list_bytes(ws0.modules@).len() as int;
            let lc = conns_list_bytes(ws0.connections@).len() as int;
            let o1 = doc_open_bytes().len() as int;
            let o2 = o1 + lm;
            let o3 = o2 + connections_key_bytes().len() as int;
            let o4 = o3 + lc;
            let o5 = o4 + doc_close_bytes().len();
            &&& o5 == bytes.len()
            &&& bytes.subrange(0, o1) == doc_open_bytes()
            &&& bytes.subrange(o1, o2) == modules_list_bytes(ws0.modules@)
            &&& bytes.subrange(o2, o3) == connections_key_bytes()
            &&& bytes.subrange(o3, o4) == conns_list_bytes(ws0.connections@)
            &&& bytes.subrange(o4, o5) == doc_close_bytes()
            &&& bytes[o2] == 93
            &&& bytes[o4] == 93
            &&& (ws0.modules@.len() >= 1 ==> modules_list_at(bytes, o1, ws0.modules@))
            &&& (ws0.connections@.len() >= 1 ==> conns_list_at(bytes, o3, ws0.connections@))
        }),
{
    assert(bytes.subrange(0, bytes.len() as int) =~= bytes);
    let p4 = doc_open_bytes() + modules_list_bytes(ws0.modules@) + connections_key_bytes()
        + conns_list_bytes(ws0.connections@);
    lemma_split(bytes, 0, p4, doc_close_bytes());
    let p3 = doc_open_bytes() + modules_list_bytes(ws0.modules@) + connections_key_bytes();
    lemma_split(bytes, 0, p3, conns_list_bytes(ws0.connections@));
    let p2 = doc_open_bytes() + modules_list_bytes(ws0.modules@);
    lemma_split(bytes, 0, p2, connections_key_bytes());
    lemma_split(bytes, 0, doc_open_bytes(), modules_list_bytes(ws0.modules@));
    let lm = modules_list_bytes(ws0.modules@).len() as int;
    let lc = conns_list_bytes(ws0.connections@).len() as int;
    let o1 = doc_open_bytes().len() as int;
    let o2 = o1 + lm;
    let o3 = o2 + connections_key_bytes().len() as int;
    let o4 = o3 + lc;
    assert(connections_key_bytes()[0] == 93);
    assert(bytes.subrange(o2, o3)[0] == bytes[o2]);
    assert(doc_close_bytes()[0] == 93);
    assert(bytes.subrange(o4, o4 + doc_close_bytes().len())[0] == bytes[o4]);
}

/// Reads a snapshot back from its document.  Two-sided: whenever `Some(ws)`
/// comes back, serializing `ws` again gives the input back byte for byte; and
/// the canonical document of any snapshot is accepted and read back as
/// exactly that snapshot's content.
/// Everything the canonical document of `ws0` pins down: section offsets and
/// contents, the brackets that close each list, and — for nonempty lists —
/// that the list stands at its offset and opens with a brace.
#[verifier::rlimit(100)]
#[verifier::spinoff_prover]
proof fn lemma_ws_layout(bytes: Seq<u8>, ws0: WorkspaceState)
    requires
        bytes == workspace_bytes(ws0),
    ensures
        ({
            let o2 = 12 + modules_list_bytes(ws0.modules@).len() as int;
            let o3 = o2 + 17;
            let o4 = o3 + conns_list_bytes(ws0.connections@).len() as int;
            &&& doc_open_bytes().len() == 12
            &&& connections_key_bytes().len() == 17
            &&& doc_close_bytes().len() == 2
            &&& o4 + 2 == bytes.len()
            &&& bytes.subrange(0, 12) == doc_open_bytes()
            &&& bytes.subrange(o2, o3) == connections_key_bytes()
            &&& bytes.subrange(o4, o4 + 2) == doc_close_bytes()
            &&& bytes[o2] == 93
            &&& bytes[o4] == 93
            &&& (ws0.modules@.len() >= 1 ==> modules_list_at(bytes, 12, ws0.modules@)
                && bytes[12] == 123)
            &&& (ws0.connections@.len() >= 1 ==> conns_list_at(bytes, o3, ws0.connections@)
                && bytes[o3] == 123)
        }),
{
    lemma_workspace_decompose(bytes, ws0);
    if ws0.modules@.len() >= 1 {
        lemma_modules_list_head(ws0.modules@);
        let m0 = ws0.modules@[0];
        if ws0.modules@.len() >= 2 {
            lemma_split(
                bytes,
                12,
                module_bytes(m0) + comma_bytes(),
                modules_list_bytes(ws0.modules@.drop_first()),
            );
            lemma_split(bytes, 12, module_bytes(m0), comma_bytes());
        }
        assert(module_at(bytes, 12, m0));
        lemma_module_decompose(bytes, 12, m0);
        assert(module_open_bytes()[0] == 123);
        assert(bytes.subrange(12, 12 + module_open_bytes().len() as int)[0] == bytes[12]);
    }
    if ws0.connections@.len() >= 1 {
        let o3 = 12 + modules_list_bytes(ws0.modules@).len() as int + 17;
        lemma_conns_list_head(ws0.connections@);
        let c0 = ws0.connections@[0];
        if ws0.connections@.len() >= 2 {
            lemma_split(
                bytes,
                o3,
                conn_bytes(c0) + comma_bytes(),
                conns_list_bytes(ws0.connections@.drop_first()),
            );
            lemma_split(bytes, o3, conn_bytes(c0), comma_bytes());
        }
        assert(conn_at(bytes, o3, c0));
        lemma_conn_decompose(bytes, o3, c0);
        assert(conn_open_bytes()[0] == 123);
        assert(bytes.subrange(o3, o3 + conn_open_bytes().len() as int)[0] == bytes[o3]);
    }
}

/// Reads the two sections of the document.  On the canonical document of any
/// snapshot it succeeds, hands back exactly that snapshot's content, and
/// consumes the whole input.
#[verifier::rlimit(100)]
#[verifier::spinoff_prover]
fn parse_body(bytes: &Vec<u8>) -> (r: Option<(Vec<SavedModule>, Vec<SavedConnection>, usize)>)
    ensures
        forall|ws0: WorkspaceState|
            bytes@ == #[trigger] workspace_bytes(ws0) ==> (r matches Some(v) && v.0@
                == ws0.modules@ && v.1@ == ws0.connections@ && v.2 == bytes@.len()),
{
    let _len_bound = bytes.len();
    proof {
        assert(bytes@.len() <= usize::MAX);
    }
    let r0 = eat_doc_open(bytes, 0);
    let p0 = match r0 {
        Some(p) => p,
        None => {
            proof {
                assert forall|ws0: WorkspaceState| bytes@ != #[trigger] workspace_bytes(ws0) by {
                    if bytes@ == workspace_bytes(ws0) {
                        lemma_ws_layout(bytes@, ws0);
                        assert(false);
                    }
                }
            }
            return None;
        },
    };
    let mut modules: Vec<SavedModule> = Vec::new();
    let rck = eat_connections_key(bytes, p0);
    let p1 = match rck {
        Some(p) => p,
        None => {
            let rml = parse_modules(bytes, p0, &mut modules);
            let pm = match rml {
                Some(p) => p,
                None => {
                    proof {
                        assert forall|ws0: WorkspaceState|
                            bytes@ != #[trigger] workspace_bytes(ws0) by {
                            if bytes@ == workspace_bytes(ws0) {
                                lemma_ws_layout(bytes@, ws0);
                                if ws0.modules@.len() == 0 {
                                    assert(bytes@.subrange(12, 29) == connections_key_bytes());
                                    assert(false);
                                } else {
                                    assert(modules_list_at(bytes@, 12, ws0.modules@));
                                    assert(false);
                                }
                            }
                        }
                    }
                    return None;
                },
            };
            let rck2 = eat_connections_key(bytes, pm);
            match rck2 {
                Some(p) => p,
                None => {
                    proof {
                        assert forall|ws0: WorkspaceState|
                            bytes@ != #[trigger] workspace_bytes(ws0) by {
                            if bytes@ == workspace_bytes(ws0) {
                                lemma_ws_layout(bytes@, ws0);
                                if ws0.modules@.len() == 0 {
                                    assert(bytes@.subrange(12, 29) == connections_key_bytes());
                                    assert(false);
                                } else {
                                    assert(modules_list_at(bytes@, 12, ws0.modules@));
                                    let o2 = 12 + modules_list_bytes(ws0.modules@).len() as int;
                                    assert(bytes@.subrange(o2, o2 + 17)
                                        == connections_key_bytes());
                                    assert(false);
                                }
                            }
                        }
                    }
                    return None;
                },
            }
        },
    };
    let mut connections: Vec<SavedConnection> = Vec::new();
    let rdc = eat_doc_close(bytes, p1);
    let p2 = match rdc {
        Some(p) => p,
        None => {
            let rcl = parse_conns(bytes, p1, &mut connections);
            let pc = match rcl {
                Some(p) => p,
                None => {
                    proof {
                        assert forall|ws0: WorkspaceState|
                            bytes@ != #[trigger] workspace_bytes(ws0) by {
                            if bytes@ == workspace_bytes(ws0) {
                                lemma_ws_layout(bytes@, ws0);
                                let o2 = 12 + modules_list_bytes(ws0.modules@).len() as int;
                                let o3 = o2 + 17;
                                if ws0.modules@.len() >= 1 {
                                    assert(modules_list_at(bytes@, 12, ws0.modules@));
                                } else {
                                    assert(bytes@.subrange(12, 29) == connections_key_bytes());
                                }
                                assert(p1 as int == o3);
                                if ws0.connections@.len() == 0 {
                                    assert(bytes@.subrange(o3, o3 + 2) == doc_close_bytes());
                                    assert(false);
                                } else {
                                    assert(conns_list_at(bytes@, o3, ws0.connections@));
                                    assert(false);
                                }
                            }
                        }
                    }
                    return None;
                },
            };
            match eat_doc_close(bytes, pc) {
                Some(p) => p,
                None => {
                    proof {
                        assert forall|ws0: WorkspaceState|
                            bytes@ != #[trigger] workspace_bytes(ws0) by {
                            if bytes@ == workspace_bytes(ws0) {
                                lemma_ws_layout(bytes@, ws0);
                                let o2 = 12 + modules_list_bytes(ws0.modules@).len() as int;
                                let o3 = o2 + 17;
                                let o4 = o3 + conns_list_bytes(ws0.connections@).len() as int;
                                if ws0.modules@.len() >= 1 {
                                    assert(modules_list_at(bytes@, 12, ws0.modules@));
                                } else {
                                    assert(bytes@.subrange(12, 29) == connections_key_bytes());
                                }
                                assert(p1 as int == o3);
                                if ws0.connections@.len() == 0 {
                                    assert(bytes@.subrange(o3, o3 + 2) == doc_close_bytes());
                                    assert(false);
                                } else {
                                    assert(conns_list_at(bytes@, o3, ws0.connections@));
                                    assert(pc as int == o4);
                                    assert(bytes@.subrange(o4, o4 + 2) == doc_close_bytes());
                                    assert(false);
                                }
                            }
                        }
                    }
                    return None;
                },
            }
        },
    };
    proof {
        assert forall|ws0: WorkspaceState|
            bytes@ == #[trigger] workspace_bytes(ws0) implies modules@ == ws0.modules@
                && connections@ == ws0.connections@ && p2 == bytes@.len() by {
            lemma_ws_layout(bytes@, ws0);
            let o2 = 12 + modules_list_bytes(ws0.modules@).len() as int;
            let o3 = o2 + 17;
            let o4 = o3 + conns_list_bytes(ws0.connections@).len() as int;
            if ws0.modules@.len() >= 1 {
                assert(modules_list_at(bytes@, 12, ws0.modules@));
                assert(modules@ == Seq::<SavedModule>::empty() + ws0.modules@);
                assert(modules@ =~= ws0.modules@);
            } else {
                assert(bytes@.subrange(12, 29) == connections_key_bytes());
                assert(modules@ =~= ws0.modules@);
            }
            assert(p1 as int == o3);
            if ws0.connections@.len() >= 1 {
                assert(conns_list_at(bytes@, o3, ws0.connections@));
                assert(connections@ == Seq::<SavedConnection>::empty() + ws0.connections@);
                assert(connections@ =~= ws0.connections@);
            } else {
                assert(bytes@.subrange(o3, o3 + 2) == doc_close_bytes());
                assert(connections@ =~= ws0.connections@);
            }
            assert(p2 as int == o4 + 2);
        }
    }
    Some((modules, connections, p2))
}

/// Reads a snapshot back from its document.  Two-sided: whenever `Some(ws)`
/// comes back, serializing `ws` again gives the input back byte for byte; and
/// the canonical document of any snapshot is accepted and read back as
/// exactly that snapshot's content.
pub fn parse_workspace(bytes: &Vec<u8>) -> (r: Option<WorkspaceState>)
    ensures
        r matches Some(ws) ==> workspace_bytes(ws) == bytes@,
        forall|ws0: WorkspaceState|
            bytes@ == #[trigger] workspace_bytes(ws0) ==> (r matches Some(ws) && ws.modules@
                == ws0.modules@ && ws.connections@ == ws0.connections@),
{
    let body = parse_body(bytes);
    let (modules, connections, end) = match body {
        Some(v) => v,
        None => {
            return None;
        },
    };
    if end != bytes.len() {
        return None;
    }
    let ws = WorkspaceState { modules, connections };
    let canonical = serialize_workspace(&ws);
    let ok = bytes_eq(&canonical, bytes);
    proof {
        assert forall|ws0: WorkspaceState|
            bytes@ == #[trigger] workspace_bytes(ws0) implies ok && ws.modules@ == ws0.modules@
                && ws.connections@ == ws0.connections@ by {
            assert(workspace_bytes(ws) == workspace_bytes(ws0));
            assert(canonical@ == bytes@);
        }
    }
    if ok {
        Some(ws)
    } else {
        None
    }
}

} // verus!
