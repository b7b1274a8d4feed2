use project_dashboard::ports::{links_to_socket, lsof_owner, netstat_owner, socket_inode};
use project_dashboard::text::push_decimal;

const TCP: &str = "  sl  local_address rem_address   st tx_queue rx_queue tr tm->when retrnsmt   uid  timeout inode
   0: 00000000:0BB8 00000000:0000 0A 00000000:00000000 00:00000000 00000000  1000        0 41234 1 0000000000000000 100 0 0 10 0
   1: 0100007F:1F90 00000000:0000 0A 00000000:00000000 00:00000000 00000000  1000        0 55555 1 0000000000000000 100 0 0 10 0
";

#[test]
fn proc_net_tcp_inode() {
    assert_eq!(socket_inode(TCP, 3000), Some(41234));
    assert_eq!(socket_inode(TCP, 8080), Some(55555));
    assert_eq!(socket_inode(TCP, 5000), None);
    assert_eq!(socket_inode("", 3000), None);
}

#[test]
fn socket_links() {
    assert!(links_to_socket("socket:[41234]", 41234));
    assert!(!links_to_socket("socket:[412345]", 41234));
    assert!(!links_to_socket("/dev/null", 0));
}

#[test]
fn lsof_listing() {
    let out = "COMMAND   PID USER   FD   TYPE DEVICE SIZE/OFF NODE NAME
node    12345 me   23u  IPv6 0x1      0t0  TCP *:3000 (LISTEN)
python  777   me   4u   IPv4 0x2      0t0  TCP 127.0.0.1:8000 (LISTEN)
";
    assert_eq!(lsof_owner(out, 3000), Some((12345, "node".to_string())));
    assert_eq!(lsof_owner(out, 8000), Some((777, "python".to_string())));
    assert_eq!(lsof_owner(out, 300), None);
}

#[test]
fn netstat_listing() {
    let out = "  Proto  Local Address          Foreign Address        State           PID
  TCP    0.0.0.0:3000           0.0.0.0:0              LISTENING       4321
  TCP    127.0.0.1:5000         127.0.0.1:60000        ESTABLISHED     99
";
    assert_eq!(netstat_owner(out, 3000), Some(4321));
    assert_eq!(netstat_owner(out, 5000), None);
}

#[test]
fn decimal_writing() {
    let mut s = String::from("n=");
    push_decimal(&mut s, 0);
    push_decimal(&mut s, 907);
    assert_eq!(s, "n=0907");
    let mut t = String::new();
    push_decimal(&mut t, u64::MAX);
    assert_eq!(t, u64::MAX.to_string());
}
