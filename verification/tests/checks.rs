use fath::lanes::ilog_const_base_lanes_u32;
use rand::rngs::ThreadRng;
use rand::{thread_rng, RngCore};

const ITERS: usize = 1 << 16;

#[test]
pub fn simd_ilog_error() {
    let rng = &mut thread_rng();

    test_lanes::<2>(rng);
    test_lanes::<4>(rng);
    test_lanes::<8>(rng);
    test_lanes::<16>(rng);
}

fn test_lanes<const LANES: usize>(rng: &mut ThreadRng) {
    for _i in 0..ITERS {
        let x: Vec<u32> = (0..LANES).map(|_| rng.next_u32()).collect();
        let exact: Vec<u32> = x.iter().map(|&v| v.ilog(3)).collect();
        let fast = ilog_const_base_lanes_u32(&x, 3);

        assert!(
            exact == fast,
            "Error greater than set maximum: true: {:?}, approx: {:?}, x: {:?}",
            exact,
            fast,
            x
        );
    }
}
