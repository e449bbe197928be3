use tezweb::io::buffer::IoBuffer;
use tezweb::io::event::EventLoop;
use tezweb::io::socket::SocketBuilder;
use tezweb::memory::bump::{BumpAllocator, Placement, ARENA_SIZE};
use tezweb::reload::{default_watch_dirs, should_reload, FileChange, ReloadState};
use tezweb::sse::{sse_channel, SseEvent};
use tezweb::strmap::StrMap;
use tezweb::tls::TlsConfig;

#[test]
fn bump_allocations_are_aligned_and_disjoint() {
    let mut b = BumpAllocator::new();
    assert_eq!(b.allocate(3, 1), Placement::Arena(0));
    assert_eq!(b.allocate(8, 8), Placement::Arena(8));
    assert_eq!(b.allocate(1, 64), Placement::Arena(64));
    assert_eq!(b.alloc_typed::<u32>(), Placement::Arena(68));
    assert_eq!(b.allocate(ARENA_SIZE, 1), Placement::Fallback);
    assert_eq!(b.allocate(1, 1), Placement::Arena(72));
    let freed = b.reset();
    assert_eq!(freed, vec![(ARENA_SIZE, 1)]);
    assert_eq!(b.allocate(1, 1), Placement::Arena(0));
    assert_eq!(BumpAllocator::default().allocate(ARENA_SIZE, 4096), Placement::Arena(0));
}

#[test]
fn reload_needs_a_file_change_and_half_a_second() {
    assert!(should_reload(FileChange::ModifyData));
    assert!(!should_reload(FileChange::Other));
    let mut s = ReloadState::new(0);
    assert!(!s.on_change(FileChange::CreateFile, 500_000_000));
    assert!(s.on_change(FileChange::CreateFile, 500_000_001));
    assert!(s.is_reload_needed());
    assert!(!s.on_change(FileChange::RemoveFile, 600_000_000));
    s.reset_reload();
    assert!(!s.is_reload_needed());
    assert!(!s.on_change(FileChange::ModifyOther, 5_000_000_000));
    assert_eq!(default_watch_dirs(), vec!["src", "templates", "public", "static"]);
}

#[test]
fn sse_event_text() {
    assert_eq!(SseEvent::data("hi").format(), "data: hi\n\n");
    assert_eq!(SseEvent::data("d").event("e").id("7").format(), "id: 7\nevent: e\ndata: d\n\n");
}

#[test]
fn buffers_split_and_advance() {
    let mut b = IoBuffer::from_vec(b"hello world".to_vec());
    let head = b.split_to(5);
    assert_eq!(head.to_vec(), b"hello".to_vec());
    b.advance(1);
    assert_eq!(b.as_slice(), b"world");
    let tail = b.split_off(3);
    assert_eq!(tail.to_vec(), b"ld".to_vec());
    b.extend_from_slice(b"!");
    assert_eq!(b.len(), 4);
    b.clear();
    assert!(b.is_empty());
    assert_eq!(IoBuffer::with_capacity(8).len(), 0);
}

#[test]
fn small_settings() {
    assert_eq!(EventLoop::new(4).threads, 4);
    let s = SocketBuilder::new();
    assert!(s.nodelay_enabled());
    let t = s.nodelay(false).keepalive(Some(std::time::Duration::from_secs(3)));
    assert!(!t.nodelay_enabled());
    assert_eq!(t.keepalive_time(), Some(std::time::Duration::from_secs(3)));
    let c = TlsConfig::new("cert.pem".into(), "key.pem".into()).port(8443).redirect_http(false);
    assert_eq!(c.port, 8443);
    assert!(!c.redirect_http);
    assert_eq!(c.cert_path, std::path::PathBuf::from("cert.pem"));
}

#[test]
fn string_maps() {
    let mut m: StrMap<u32> = StrMap::new();
    m.insert("a".to_string(), 1);
    m.insert("b".to_string(), 2);
    m.insert("a".to_string(), 3);
    assert_eq!(m.len(), 2);
    assert_eq!(m.get("a"), Some(&3));
    assert_eq!(m.take("a"), Some(3));
    assert!(!m.contains_key("a"));
    m.remove("b");
    assert!(m.is_empty());
}

#[test]
fn sse_channel_is_bounded() {
    let (rx, tx) = sse_channel();
    assert_eq!(rx.rx.max_capacity(), 128);
    assert_eq!(tx.sender.max_capacity(), 128);
}

#[test]
fn buffer_capacity_covers_contents() {
    let mut b = IoBuffer::from_vec(b"hello world".to_vec());
    assert!(b.capacity() >= 11);
    b.reserve(100);
    assert!(b.capacity() >= 111);
    assert_eq!(b.as_slice(), b"hello world");
    let r: &[u8] = b.as_ref();
    assert_eq!(r, b"hello world");
}
