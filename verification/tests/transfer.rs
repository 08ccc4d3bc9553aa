use healpix_batch::buffer::{BufferError, TransferRegistry};
use healpix_batch::pix::{depth_from_n_hash, n_hash, pow2_u64, pow4_u64};

#[test]
fn transfer_then_release_returns_the_buffer() {
    let mut reg: TransferRegistry<Vec<u64>> = TransferRegistry::new();
    let token = reg.transfer_out(vec![1, 2, 3]);
    assert_eq!(token, 0);
    assert_eq!(reg.release(token), Ok(vec![1, 2, 3]));
}

#[test]
fn double_release_is_refused() {
    let mut reg: TransferRegistry<Vec<u8>> = TransferRegistry::new();
    let token = reg.transfer_out(vec![7]);
    assert!(reg.release(token).is_ok());
    assert_eq!(reg.release(token), Err(BufferError::AlreadyReleased));
    assert_eq!(reg.release(token), Err(BufferError::AlreadyReleased));
}

#[test]
fn unknown_token_is_refused() {
    let mut reg: TransferRegistry<Vec<u8>> = TransferRegistry::new();
    assert_eq!(reg.release(0), Err(BufferError::UnknownToken));
    let token = reg.transfer_out(vec![1]);
    assert_eq!(reg.release(token + 1), Err(BufferError::UnknownToken));
}

#[test]
fn tokens_are_independent() {
    let mut reg: TransferRegistry<Vec<u8>> = TransferRegistry::new();
    let t0 = reg.transfer_out(vec![0]);
    let t1 = reg.transfer_out(vec![1]);
    let t2 = reg.transfer_out(vec![2]);
    assert_eq!(reg.issued(), 3);
    assert_eq!(reg.release(t1), Ok(vec![1]));
    assert_eq!(reg.release(t1), Err(BufferError::AlreadyReleased));
    assert_eq!(reg.release(t0), Ok(vec![0]));
    assert_eq!(reg.release(t2), Ok(vec![2]));
}

#[test]
fn pixel_counts_per_depth() {
    assert_eq!(n_hash(0), 12);
    assert_eq!(n_hash(1), 48);
    assert_eq!(n_hash(2), 192);
    assert_eq!(n_hash(29), 3458764513820540928);
    assert_eq!(pow4_u64(0), 1);
    assert_eq!(pow4_u64(5), 1024);
    assert_eq!(pow2_u64(10), 1024);
}

#[test]
fn depth_from_n_hash_values() {
    assert_eq!(depth_from_n_hash(12), Some(0));
    assert_eq!(depth_from_n_hash(48), Some(1));
    assert_eq!(depth_from_n_hash(3458764513820540928), Some(29));
    assert_eq!(depth_from_n_hash(0), None);
    assert_eq!(depth_from_n_hash(11), None);
    assert_eq!(depth_from_n_hash(24), None);
}
