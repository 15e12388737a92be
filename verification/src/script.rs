use vstd::prelude::*;

verus! {

/// One decoded script instruction: a data push, or a bare opcode.
#[derive(Debug, Clone)]
pub enum ScriptInstr {
    Push(Vec<u8>),
    Op(u8),
}

/// The plain form of an instruction: a push flag, and the pushed bytes or
/// the single opcode byte.
pub open spec fn instr_rep(i: ScriptInstr) -> (bool, Seq<u8>) {
    match i {
        ScriptInstr::Push(bytes) => (true, bytes@),
        ScriptInstr::Op(code) => (false, seq![code]),
    }
}

/// What splitting a script into instructions yields: a sequence of pushes
/// and opcodes, or nothing when a push runs past the end of the script.
pub uninterp spec fn script_instructions(s: Seq<u8>) -> Option<Seq<(bool, Seq<u8>)>>;

/// Relies on `bitcoin::Script::instructions`: it splits a script into push
/// and opcode instructions, and reports an error exactly when a push length
/// runs past the end of the script.
#[verifier::external_body]
pub(crate) fn decode_script(script: &Vec<u8>) -> (r: Option<Vec<ScriptInstr>>)
    ensures
        match r {
            Some(v) => script_instructions(script@) == Some(
                v@.map_values(|i: ScriptInstr| instr_rep(i)),
            ),
            None => script_instructions(script@) is None,
        },
{
    let parsed = bitcoin::Script::from_bytes(script.as_slice());
    let mut out: Vec<ScriptInstr> = Vec::new();
    for ins in parsed.instructions() {
        match ins {
            Ok(bitcoin::script::Instruction::PushBytes(b)) => out.push(ScriptInstr::Push(b.as_bytes().to_vec())),
            Ok(bitcoin::script::Instruction::Op(op)) => out.push(ScriptInstr::Op(op.to_u8())),
            Err(_) => return None,
        }
    }
    Some(out)
}

/// Relies on `bitcoin::TxOut`: `script_pubkey` holds the output's script,
/// and `Script::as_bytes` hands back its raw bytes.
#[verifier::external_body]
pub(crate) fn txout_script_bytes(txout: &bitcoin::TxOut) -> (r: Vec<u8>) {
    txout.script_pubkey.as_bytes().to_vec()
}

#[verifier::external_type_specification]
#[verifier::external_body]
pub struct ExTxOut(bitcoin::TxOut);

} // verus!
