use refracted::msgsystem::simucloud::{
    create_game_reply, create_type_id_override, negotiation_step, CreateGameReply, NegotiationStep,
};
use refracted::msgsystem::wire::WireWriter;

fn ptm(entries: &[(u16, &str)]) -> Vec<u8> {
    let mut w = WireWriter::new();
    w.write_u8(1);
    w.write_var_i32(entries.len() as i32);
    for (id, name) in entries {
        w.write_u16(*id);
        w.write_string(Some(name));
    }
    w.into_bytes()
}

#[test]
fn negotiation_reads_the_mapping() {
    assert_eq!(negotiation_step(1, &[1, 0, 0, 0]), NegotiationStep::Continue);
    assert_eq!(negotiation_step(42, &[]), NegotiationStep::Continue);
    let p = ptm(&[
        (9, "Rts.CnC.Messages.SimuCloud.CreateGame"),
        (10, "Rts.CnC.Messages.SimuCloud.GameReady"),
    ]);
    assert_eq!(negotiation_step(0, &p), NegotiationStep::Mapped { create: 9, ready: 10, failure: 0 });
    let p = ptm(&[(10, "Rts.CnC.Messages.SimuCloud.GameReady")]);
    assert_eq!(negotiation_step(0, &p), NegotiationStep::NoCreateGame);
}

#[test]
fn replies_to_create_game() {
    assert_eq!(create_game_reply(10, 10, 11), CreateGameReply::Ready);
    assert_eq!(create_game_reply(11, 10, 11), CreateGameReply::Failure);
    assert_eq!(create_game_reply(12, 10, 11), CreateGameReply::Other);
    assert_eq!(create_game_reply(0, 0, 0), CreateGameReply::Other);
}

#[test]
fn create_type_override() {
    assert_eq!(create_type_id_override(" 77 "), Some(77));
    assert_eq!(create_type_id_override("x"), None);
    assert_eq!(create_type_id_override("70000"), None);
}
