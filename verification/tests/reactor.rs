use echo_reactor::client::produce_response;
use echo_reactor::common::{encode, Route};
use echo_reactor::server::{Action, Server};

/// The flags value an ongoing multi-shot accept completion carries
/// (IORING_CQE_F_MORE).
const MORE: u32 = 2;

fn accept(server: &mut Server, fd: i32) -> Action {
    server.handle_completion(encode(Route::Accept), fd, MORE)
}

fn read_done(server: &mut Server, id: u32, result: i32) -> Action {
    server.handle_completion(encode(Route::ClientRead(id)), result, 0)
}

fn write_done(server: &mut Server, id: u32, result: i32) -> Action {
    server.handle_completion(encode(Route::ClientWrite(id)), result, 0)
}

#[test]
fn accept_admits_a_connection_and_submits_its_first_read() {
    let mut server = Server::new(4, 64);
    let action = accept(&mut server, 9);
    // a fresh pool's free list is 0..4 and pops from the top
    assert_eq!(action, Action::SubmitRead { fd: 9, id: 0, buf_idx: 3 });
    assert_eq!(server.live_count(), 1);
    assert_eq!(server.buffer_pool.free_count(), 3);
    assert!(server.accept_active);
}

#[test]
fn ids_increase_and_are_never_reused() {
    let mut server = Server::new(4, 64);
    assert_eq!(accept(&mut server, 5), Action::SubmitRead { fd: 5, id: 0, buf_idx: 3 });
    assert_eq!(accept(&mut server, 6), Action::SubmitRead { fd: 6, id: 1, buf_idx: 2 });
    // even after the first connection dies, its id is not handed out again
    assert_eq!(read_done(&mut server, 0, 0), Action::Close { fd: 5 });
    assert_eq!(accept(&mut server, 7), Action::SubmitRead { fd: 7, id: 2, buf_idx: 3 });
}

#[test]
fn read_of_twelve_bytes_causes_one_write_of_twelve() {
    let mut server = Server::new(2, 64);
    assert_eq!(accept(&mut server, 9), Action::SubmitRead { fd: 9, id: 0, buf_idx: 1 });
    server.buffer_pool.write_slot(1, &b"abcdefghijkl".to_vec());
    let action = read_done(&mut server, 0, 12);
    assert_eq!(action, Action::SubmitWrite { fd: 9, id: 0, buf_idx: 1, len: 12 });
    // a write completion confirming all 12 bytes causes exactly one new read
    let action = write_done(&mut server, 0, 12);
    assert_eq!(action, Action::SubmitRead { fd: 9, id: 0, buf_idx: 1 });
    assert_eq!(server.live_count(), 1);
}

#[test]
fn read_of_zero_removes_the_connection_and_frees_its_slot() {
    let mut server = Server::new(3, 32);
    accept(&mut server, 4);
    assert_eq!(server.live_count(), 1);
    let free_before = server.buffer_pool.free_count();
    let action = read_done(&mut server, 0, 0);
    assert_eq!(action, Action::Close { fd: 4 });
    assert_eq!(server.live_count(), 0);
    assert_eq!(server.buffer_pool.free_count(), free_before + 1);
}

#[test]
fn read_error_removes_the_connection_and_frees_its_slot() {
    let mut server = Server::new(3, 32);
    accept(&mut server, 4);
    let free_before = server.buffer_pool.free_count();
    // -104 is how the kernel reports ECONNRESET
    let action = read_done(&mut server, 0, -104);
    assert_eq!(action, Action::Close { fd: 4 });
    assert_eq!(server.live_count(), 0);
    assert_eq!(server.buffer_pool.free_count(), free_before + 1);
}

#[test]
fn short_write_destroys_without_another_read() {
    let mut server = Server::new(1, 128);
    accept(&mut server, 8);
    let action = read_done(&mut server, 0, 100);
    assert_eq!(action, Action::SubmitWrite { fd: 8, id: 0, buf_idx: 0, len: 100 });
    // the write confirms only 40 of the expected 100 bytes
    let action = write_done(&mut server, 0, 40);
    assert_eq!(action, Action::Close { fd: 8 });
    assert_eq!(server.live_count(), 0);
    assert_eq!(server.buffer_pool.free_count(), 1);
}

#[test]
fn write_error_and_write_of_zero_destroy() {
    let mut server = Server::new(2, 16);
    accept(&mut server, 3);
    accept(&mut server, 4);
    read_done(&mut server, 0, 5);
    read_done(&mut server, 1, 5);
    assert_eq!(write_done(&mut server, 0, -32), Action::Close { fd: 3 });
    assert_eq!(write_done(&mut server, 1, 0), Action::Close { fd: 4 });
    assert_eq!(server.live_count(), 0);
}

#[test]
fn echo_end_to_end() {
    let mut server = Server::new(2, 32);

    // client connects
    let action = accept(&mut server, 5);
    assert_eq!(action, Action::SubmitRead { fd: 5, id: 0, buf_idx: 1 });

    // client sends 5 bytes "hello": the kernel stores them in the slot and
    // the outstanding read completes with len=5
    server.buffer_pool.write_slot(1, &b"hello".to_vec());
    let action = read_done(&mut server, 0, 5);

    // the response collaborator returned the same 5 bytes and a write of
    // length 5 was submitted from the same slot
    assert_eq!(action, Action::SubmitWrite { fd: 5, id: 0, buf_idx: 1, len: 5 });
    assert_eq!(server.buffer_pool.slot_prefix(1, 5), b"hello".to_vec());

    // the write completion reports all 5 bytes: a new read is submitted
    let action = write_done(&mut server, 0, 5);
    assert_eq!(action, Action::SubmitRead { fd: 5, id: 0, buf_idx: 1 });

    // client closes: the read completes with 0, the connection is removed
    // and its slot is freed
    let action = read_done(&mut server, 0, 0);
    assert_eq!(action, Action::Close { fd: 5 });
    assert_eq!(server.live_count(), 0);
    assert_eq!(server.buffer_pool.free_count(), 2);
}

#[test]
fn pool_exhaustion_rejects_without_creating_a_connection() {
    let mut server = Server::new(1, 16);
    assert_eq!(accept(&mut server, 5), Action::SubmitRead { fd: 5, id: 0, buf_idx: 0 });
    assert_eq!(server.live_count(), 1);

    // zero free slots: the accept completion must not create a connection
    assert_eq!(server.buffer_pool.free_count(), 0);
    assert_eq!(accept(&mut server, 6), Action::Reject { fd: 6 });
    assert_eq!(server.live_count(), 1);
    assert_eq!(server.buffer_pool.free_count(), 0);
}

#[test]
fn accept_error_is_ignored_and_never_fatal() {
    let mut server = Server::new(2, 16);
    let action = accept(&mut server, -11);
    assert_eq!(action, Action::Ignore);
    assert_eq!(server.live_count(), 0);
    assert_eq!(server.buffer_pool.free_count(), 2);
    // the server keeps accepting afterwards
    assert_eq!(accept(&mut server, 7), Action::SubmitRead { fd: 7, id: 0, buf_idx: 1 });
}

#[test]
fn completion_for_an_unknown_id_is_ignored() {
    let mut server = Server::new(2, 16);
    assert_eq!(read_done(&mut server, 42, 5), Action::Ignore);
    assert_eq!(write_done(&mut server, 42, 5), Action::Ignore);
}

#[test]
fn completion_not_matching_the_pending_operation_is_ignored() {
    let mut server = Server::new(2, 16);
    accept(&mut server, 5);
    // the connection awaits a read; a write completion for it is ignored
    assert_eq!(write_done(&mut server, 0, 5), Action::Ignore);
    read_done(&mut server, 0, 3);
    // now it awaits a write; a read completion for it is ignored
    assert_eq!(read_done(&mut server, 0, 3), Action::Ignore);
    assert_eq!(server.live_count(), 1);
}

#[test]
fn foreign_token_demands_abort() {
    let mut server = Server::new(2, 16);
    assert_eq!(server.handle_completion(3, 0, 0), Action::Abort);
    assert_eq!(server.handle_completion(u64::MAX, 0, 0), Action::Abort);
}

#[test]
fn accept_stream_end_is_remembered() {
    let mut server = Server::new(2, 16);
    assert!(server.accept_active);
    // a completion without IORING_CQE_F_MORE means no more accepts will come
    server.handle_completion(encode(Route::Accept), 5, 0);
    assert!(!server.accept_active);
    // the flag never comes back
    server.handle_completion(encode(Route::Accept), 6, MORE);
    assert!(!server.accept_active);
}

#[test]
fn read_longer_than_a_slot_destroys_the_connection() {
    let mut server = Server::new(1, 8);
    accept(&mut server, 5);
    let action = read_done(&mut server, 0, 9);
    assert_eq!(action, Action::Close { fd: 5 });
    assert_eq!(server.live_count(), 0);
}

#[test]
fn response_collaborator_echoes_verbatim() {
    assert_eq!(produce_response(&b"hello".to_vec()), b"hello".to_vec());
    assert_eq!(produce_response(&Vec::new()), Vec::<u8>::new());
    assert_eq!(produce_response(&vec![0u8, 255, 7]), vec![0u8, 255, 7]);
}
