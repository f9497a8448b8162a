//! Content-defined chunking with a gear hash: where a chunk ends depends only on
//! the bytes since it began, so that equal stretches of two files fall into
//! equal chunks.

use crate::bytes;
use crate::hashing;
use vstd::prelude::*;

verus! {

/// The least size of a chunk, but for the last one.
pub const DEFAULT_CHUNK_MIN: usize = 2048;

/// The size that chunks have on average.
pub const DEFAULT_CHUNK_AVG: usize = 65536;

/// The greatest size of a chunk.
pub const DEFAULT_CHUNK_MAX: usize = 2097152;

/// A random number for each byte.
pub const GEAR_TABLE: [u64; 256] = [
    0x6b5f_f821_3c4a_e15d, 0x3e2c_4a59_81fb_d7c3, 0x9d17_e3f0_a264_58b9, 0xc4a8_6b2f_d903_7e41,
    0x1f93_d5a4_27c8_b60e, 0x72e4_0b98_cf56_1da3, 0xa51c_83d7_640f_9eb2, 0x4de9_7a13_b85c_02f6,
    0x8376_1ed5_4ca9_f0b8, 0x0ab4_62c1_9f7d_e384, 0xd648_f5a7_30b9_1c2e, 0x5c01_9de3_a872_4fb6,
    0xe7ba_3f84_d215_c60a, 0x29d5_c416_7eb3_80f9, 0xf103_8a6d_54e9_27cb, 0x68cf_b1a2_e374_950d,
    0xb42e_d789_16fc_a053, 0x0d71_4e36_c5a8_9bf2, 0x94ad_23f5_781c_d0e6, 0x3f86_cb17_a9e0_524d,
    0xe210_7d93_f4b6_a8c1, 0x57c9_01a8_2de5_3f74, 0xab34_e6c2_809f_1db7, 0x1ea7_580d_c3b4_96f2,
    0xc5f3_9a21_67de_0b48, 0x4018_d7b5_e2c9_a36f, 0x86ac_3f70_1d54_e8b2, 0xd961_c4a8_f30b_72e5,
    0x237e_a5d1_b846_9fc0, 0x7cb2_10e9_6d3f_5a84, 0xf5d4_8c36_a1e7_0b29, 0x41a9_37cb_58f2_d6e0,
    0xba65_fc12_8d07_a493, 0x0e38_b4d7_c9a1_526f, 0x97c2_608a_3e15_fdb4, 0x5a0d_e1f3_c478_b926,
    0xc391_7b25_a0ec_4d18, 0x2cd6_a940_f587_13be, 0xf41b_3e82_d9c6_a075, 0x6807_d5c4_1ab9_2ef3,
    0xad73_4f96_e201_c8b5, 0x15be_8a63_7dc4_f021, 0x89e1_c7d4_026b_3fa8, 0x34a6_12f5_cb89_70de,
    0xe75c_d438_916a_b2c0, 0x50c3_a917_6ef4_d58b, 0xbc29_5d80_a3e1_47f6, 0x03f7_8e14_d5b2_c96a,
    0xcb84_a3f6_1027_de59, 0x4610_dbc5_87f9_6a23, 0x91f5_26a8_e4d3_0cb7, 0xdf42_c519_73b8_ea04,
    0x27be_9170_a4d6_3cf8, 0x7a03_e8d2_1fc5_b946, 0xf5c8_3da6_42b1_970e, 0x384d_76c1_ef02_5ab9,
    0xc916_ab53_d478_e0f2, 0x14e2_c087_b935_6da4, 0xa8bf_31d4_52c0_7e19, 0x5d04_f928_3ea7_c1b6,
    0xe261_8db5_c0f3_4a27, 0x2fb0_54c3_79e8_16da, 0x93c7_ae19_0d64_f285, 0x46da_0372_b5c1_8f9e,
    0xb185_6fad_c832_04e7, 0x0c4e_d2b1_f697_a358, 0x7923_a8e5_4db0_c1f6, 0xd4f6_1cb7_28a3_950e,
    0x2a81_e594_f3d0_467b, 0x67b3_0fc8_a512_de94, 0xfb48_c261_d7e9_30a5, 0x35d9_7a0e_8cb4_f123,
    0xce14_b583_61d7_a9f0, 0x40af_e826_9d03_cb57, 0x9d63_24b1_f0c5_7e8a, 0x58c0_91f7_a43e_d2b6,
    0xa27b_4dc9_1586_e0f3, 0x1fe6_30a4_cb79_8d52, 0x8c59_d7e2_a41b_063f, 0xd302_a5f6_19e8_4cb7,
    0x27c4_f831_de90_ba65, 0x7a18_6dbc_43f5_0e29, 0xf6b5_c204_87da_31e9, 0x4be1_39d7_5c06_a8f2,
    0xb09c_7ea3_c1d4_5b28, 0x0d57_a2e0_f4b3_96c1, 0x82e3_cb14_39a0_d7f5, 0xdf26_50a9_b7c4_138e,
    0x369a_8d47_2ce1_f5b0, 0x7b04_f1d2_85a6_3ec9, 0xf8c1_a593_60d7_2b4e, 0x45b6_2ef0_9dc8_71a3,
    0xbd73_c418_0a5f_e962, 0x01e8_3fb5_c297_d4a6, 0x9e54_d061_78bc_a3f2, 0xd2a9_1784_cb30_5fe6,
    0x2c16_e5b3_a049_8df7, 0x73db_a826_5cf1_40b9, 0xfa07_31c4_e8bd_926e, 0x46c2_9f58_13d7_a4b0,
    0xbe8d_5a01_7c43_e6f9, 0x05f4_c7b3_da21_908e, 0x8b31_0ed6_a5f8_4c27, 0xd7e6_9240_1cb3_f5a8,
    0x2179_abd5_e804_3c6f, 0x7e04_68b1_c3d9_f527, 0xf2b5_d34a_810e_67c9, 0x4ca8_1f97_56e2_b0d3,
    0xa163_c4e0_2db8_f975, 0x1dbe_70a3_f945_8c21, 0x894c_d517_a3e0_2fb6, 0xd600_a928_7fb4_c3e1,
    0x23d7_8e45_b1c6_0af9, 0x78ab_f213_9cd0_6e47, 0xf43e_2db6_c581_a709, 0x4b91_c0d8_37a4_fe62,
    0xb254_79a1_e06c_1db3, 0x0fc3_e687_54a9_b2d0, 0x9618_ad34_c2f7_605b, 0xdb75_4a02_1fc8_93e6,
    0x24c1_f59a_8d36_70eb, 0x7986_0bd3_e4a2_cf18, 0xf10a_c845_3b67_d29e, 0x4ed7_31b9_a0fc_5624,
    0xa342_9c06_d8b1_ef73, 0x1ab5_e0d4_6379_28cf, 0x876c_24f1_bea5_d038, 0xd493_5b17_02ce_a6f9,
    0x21e8_b7c0_f43d_5a96, 0x7e5f_03a4_c912_d8b3, 0xf2c4_6e31_85a7_0bd9, 0x4db1_9258_c3f6_ae04,
    0xaa76_cd83_1049_5fb2, 0x1503_81bf_e7d4_a2c6, 0x88d4_ae62_5b07_f139, 0xd629_43b5_90ec_78a1,
    0x239e_f7c0_4db1_2a68, 0x7c41_5a92_e3b8_0fd4, 0xf0b2_c637_a905_81de, 0x45e7_39d4_1cba_f628,
    0xb91c_8da0_6743_e5f1, 0x06a3_f278_db14_c905, 0x9250_b4e1_3dc7_0fa6, 0xdf87_6123_a4e9_cb50,
    0x2a1c_d5f6_80b3_4e97, 0x75e0_a849_c327_1fb6, 0xf39b_0c24_d6e5_7a81, 0x4856_d1b3_2fa0_c7e9,
    0xbc2d_9fe4_a178_3065, 0x01e4_738b_5dc6_a9f2, 0x8d97_b250_c41e_6fa3, 0xd06a_2e85_f1c3_94b7,
    0x2cb1_d704_8e69_53fa, 0x7f46_a8c1_32bd_e019, 0xf3d2_140b_c5a6_789e, 0x4e09_6ba7_d8f3_c251,
    0xab84_c3f0_1d27_95e6, 0x1671_ae52_c098_4bf3, 0x8a2d_f584_67b1_c039, 0xd5c0_3916_a2fd_8e74,
    0x28a7_e4d3_5b10_cf69, 0x7d53_01be_c8a4_2f96, 0xf1e8_bc47_3d65_a20d, 0x4c34_5f92_e0b7_d1a8,
    0xb0c9_a216_7d4e_f853, 0x0512_dc83_a9b0_674f, 0x99e6_7014_c253_bda8, 0xd42b_a5f0_8e97_31c6,
    0x2794_c831_d5be_0af7, 0x7ae1_3f06_82c4_59d3, 0xf6bc_d245_1e73_a0b9, 0x4308_a7b9_c561_dfe2,
    0xbd51_e460_3a98_7cf1, 0x02c6_89f3_e7a4_b510, 0x8e7d_b428_51c0_3fa9, 0xd1a0_67b5_2cf4_e893,
    0x2e3f_c1d0_b586_49a7, 0x7b82_4ea3_c0d9_f715, 0xf715_930c_4ea2_d8b3, 0x42c8_b6a1_d350_7fe9,
    0xaf54_0d38_91e7_c2b6, 0x1429_e8c5_a6f3_7d01, 0x87e3_51b6_dc0a_4f98, 0xd096_2c43_f5b8_a1e7,
    0x2b41_f790_8ced_3a56, 0x76d8_a025_e1b4_cf93, 0xfaed_3481_5726_b0c9, 0x4f12_c9b7_a3d0_6e85,
    0xb3a7_5e04_c819_df62, 0x0e6c_d1a2_3fb5_8740, 0x928b_47e1_d0f3_6ca5, 0xde50_bc36_14a9_87f2,
    0x23c5_f049_6dbe_2a18, 0x7e98_3ad6_c104_5fb1, 0xf201_c78b_9ed3_a465, 0x4f74_152c_a3b8_e9d0,
    0xa4e9_b863_17c0_5df2, 0x1136_4db7_e29a_08c5, 0x8dc2_a0e4_5b17_f639, 0xd05f_31b2_ce84_a976,
    0x2d84_e6c7_a320_5fb1, 0x7013_9ba4_dc67_82e5, 0xfca8_d451_03b9_2e7f, 0x4965_0fc8_b7e2_a134,
    0xb5da_c203_6e18_4fb7, 0x0241_7db6_a5c3_f809, 0x9ebc_a061_c834_d5f2, 0xd3f7_529c_01e6_ba48,
    0x260c_bf21_94d5_3ea7, 0x7b93_e8a4_c072_1d5f, 0xf7c8_461d_3ba5_90e2, 0x42a1_d370_e50c_bf69,
    0xbe5c_0f8b_7a43_d296, 0x0327_c4e6_d1b8_a5f0, 0x8f60_b932_54cd_e1a7, 0xdc15_ae03_b897_4c62,
    0x21a8_73d5_0fc4_e2b9, 0x7cd4_e092_b318_5fa6, 0xf06b_2dc1_84e9_a735, 0x4d92_c1b4_67a3_08fe,
    0xa247_56e0_1bcd_9f83, 0x1fb0_8d13_c429_e5a7, 0x83c5_f420_e976_1adb, 0xde08_31a7_b2c4_5f96,
    0x2a9d_e654_0cb1_73f8, 0x7760_b9c3_f1de_a402, 0xfb15_48a6_3dc0_927e, 0x46c2_0f71_8ab5_e3d9,
    0xba97_d438_c501_6eaf, 0x054e_a1c7_f8d2_3b60, 0x99f3_6c80_2db7_a5e4, 0xd420_b5f1_c368_9a27,
    0x2dbc_4a06_e5f1_73c9, 0x7845_f3c2_0abd_e691, 0xf4d1_8e37_c962_ab05, 0x4106_c2a4_b5d8_3f7e,
    0xad7b_3058_e4c9_1fa6, 0x12e4_cd81_7ba0_5643, 0x8e59_a4b2_0fc7_31d8, 0xd380_1fc5_e2b6_a749,
    0x2a6f_e3c8_1594_bd07, 0x75b4_0a91_c8d6_3fe2, 0xf9c3_5d24_87b0_a16e, 0x4618_a2d7_3bcf_9058,
    0xb087_c4f1_d259_6ea3, 0x0b5e_91a3_67c4_d8f2, 0x964d_b0e8_c123_7fa5, 0xd1a2_3f75_8ec0_b469,
    0x2e89_c416_f5d3_a0b7, 0x73f0_5b84_29e6_cd13, 0xfc47_d2a1_b038_5e96, 0x410c_8fb3_e7a5_d248,
    0xbe93_d714_a268_5fc0, 0x05a8_41c6_f3bd_927e, 0x9c74_e0b2_5d31_a8f6, 0xd1bf_56a0_83c4_7e29,
];

/// A chunk and its BLAKE3 hash.
#[derive(Debug)]
pub struct Chunk {
    pub data: Vec<u8>,
    pub hash: [u8; 32],
}

/// The sizes that chunks may have.
#[derive(Debug, Clone, Copy)]
pub struct GearChunker {
    pub min: usize,
    pub avg: usize,
    pub max: usize,
}

impl Default for GearChunker {
    fn default() -> (c: Self)
        ensures
            c == (GearChunker {
                min: DEFAULT_CHUNK_MIN,
                avg: DEFAULT_CHUNK_AVG,
                max: DEFAULT_CHUNK_MAX,
            }),
            c.wf(),
    {
        GearChunker { min: DEFAULT_CHUNK_MIN, avg: DEFAULT_CHUNK_AVG, max: DEFAULT_CHUNK_MAX }
    }
}

/// The rolling hash after one more byte.
pub open spec fn gear_step(hash: u64, b: u8) -> u64 {
    (hash << 1).wrapping_add(GEAR_TABLE[b as int])
}

impl GearChunker {
    pub open spec fn wf(&self) -> bool {
        0 < self.min <= self.avg <= self.max
    }

    /// Whether a chunk of `n` bytes whose rolling hash is `hash` ends here: it is
    /// long enough, and the low bits of the hash are clear or it is as long as a
    /// chunk may be.
    pub open spec fn cuts(&self, n: int, hash: u64) -> bool {
        n >= self.min && (hash & ((self.avg - 1) as u64) == 0 || n >= self.max)
    }

    /// The end of the chunk that began at `start`, having looked at the bytes up
    /// to `i`.
    pub open spec fn end_from(&self, data: Seq<u8>, start: int, i: int, hash: u64) -> int
        decreases data.len() - i,
    {
        if 0 <= i < data.len() {
            let h = gear_step(hash, data[i]);
            if self.cuts(i - start + 1, h) {
                i + 1
            } else {
                self.end_from(data, start, i + 1, h)
            }
        } else {
            data.len() as int
        }
    }

    /// The ends of the chunks from `start` on.
    pub open spec fn ends_from(&self, data: Seq<u8>, start: int) -> Seq<int>
        decreases data.len() - start,
        via GearChunker::ends_from_shrinks
    {
        if 0 <= start < data.len() {
            let e = self.end_from(data, start, start, 0);
            seq![e] + self.ends_from(data, e)
        } else {
            Seq::empty()
        }
    }

    #[via_fn]
    proof fn ends_from_shrinks(&self, data: Seq<u8>, start: int) {
        if 0 <= start < data.len() {
            self.end_is_behind(data, start, start, 0);
        }
    }

    /// A chunk ends behind the bytes looked at, and within the data.
    pub proof fn end_is_behind(&self, data: Seq<u8>, start: int, i: int, hash: u64)
        requires
            0 <= start <= i < data.len(),
        ensures
            i < self.end_from(data, start, i, hash) <= data.len(),
        decreases data.len() - i,
    {
        let h = gear_step(hash, data[i]);
        if !self.cuts(i - start + 1, h) && i + 1 < data.len() {
            self.end_is_behind(data, start, i + 1, h);
        } else if i + 1 == data.len() {
            assert(self.end_from(data, start, i + 1, h) == data.len());
        }
    }

    /// A chunker for chunks of `min` to `max` bytes, `avg` on average.
    pub fn new(min: usize, avg: usize, max: usize) -> (c: GearChunker)
        requires
            min > 0 && avg >= min && max >= avg,
        ensures
            c.wf(),
            c == (GearChunker { min, avg, max }),
    {
        GearChunker { min, avg, max }
    }

    /// The ends of the chunks of `data`.
    pub fn find_boundaries(&self, data: &[u8]) -> (ends: Vec<usize>)
        requires
            self.wf(),
        ensures
            ends@.map_values(|e: usize| e as int) == self.ends_from(data@, 0),
    {
        let mask: u64 = (self.avg - 1) as u64;
        let mut ends: Vec<usize> = Vec::new();
        let mut start: usize = 0;
        let mut hash: u64 = 0;
        let mut i: usize = 0;
        let total: usize = data.len();
        assert(ends@.map_values(|e: usize| e as int) =~= Seq::empty());
        while i < total
            invariant
                self.wf(),
                mask == (self.avg - 1) as u64,
                start <= i <= total,
                total == data@.len(),
                start < total ==> ends@.map_values(|e: usize| e as int) + (seq![
                    self.end_from(data@, start as int, i as int, hash),
                ] + self.ends_from(
                    data@,
                    self.end_from(data@, start as int, i as int, hash),
                )) == self.ends_from(data@, 0),
                start == total ==> ends@.map_values(|e: usize| e as int) == self.ends_from(
                    data@,
                    0,
                ),
            decreases total - i,
        {
            hash = (hash << 1).wrapping_add(GEAR_TABLE[data[i] as usize]);
            let n: usize = i - start + 1;
            if n >= self.min && (hash & mask == 0 || n >= self.max) {
                let ghost before = ends@.map_values(|e: usize| e as int);
                ends.push(i + 1);
                proof {
                    let after = ends@.map_values(|e: usize| e as int);
                    assert(after =~= before.push(i + 1));
                    let rest = self.ends_from(data@, i + 1);
                    assert(before + (seq![i + 1] + rest) =~= after + rest);
                    if i + 1 == total {
                        assert(after + rest =~= after);
                    }
                }
                start = i + 1;
                hash = 0;
            }
            i = i + 1;
        }
        if start < total {
            let ghost before = ends@.map_values(|e: usize| e as int);
            ends.push(total);
            proof {
                let after = ends@.map_values(|e: usize| e as int);
                assert(after =~= before.push(total as int));
                assert(self.ends_from(data@, total as int) =~= Seq::empty());
                assert(before + (seq![total as int] + Seq::empty()) =~= after);
            }
        }
        ends
    }

    /// The chunks of `data` from `start` on.
    pub open spec fn chunks_from(&self, data: Seq<u8>, start: int) -> Seq<Seq<u8>> {
        pieces(data, start, self.ends_from(data, start))
    }

    /// The chunks of `data`, with their hashes.
    pub fn chunk_slice(&self, data: &[u8]) -> (chunks: Vec<Chunk>)
        requires
            self.wf(),
        ensures
            chunk_data(chunks@) == self.chunks_from(data@, 0),
            forall|i: int|
                0 <= i < chunks@.len() ==> (#[trigger] chunks@[i]).hash@ == hashing::blake3(
                    chunks@[i].data@,
                ),
    {
        let ends = self.find_boundaries(data);
        let ghost all = ends@.map_values(|e: usize| e as int);
        proof {
            self.ends_are_increasing(data@, 0);
            assert(all == self.ends_from(data@, 0));
        }
        let mut chunks: Vec<Chunk> = Vec::new();
        let mut start: usize = 0;
        let mut i: usize = 0;
        while i < ends.len()
            invariant
                i <= ends@.len(),
                all == ends@.map_values(|e: usize| e as int),
                all == self.ends_from(data@, 0),
                ends_fit(data@, 0, all),
                start == (if i == 0 {
                    0
                } else {
                    all[i - 1]
                }),
                chunks@.len() == i,
                chunk_data(chunks@) == pieces(data@, 0, all).subrange(0, i as int),
                forall|k: int|
                    0 <= k < chunks@.len() ==> (#[trigger] chunks@[k]).hash@ == hashing::blake3(
                        chunks@[k].data@,
                    ),
            decreases ends@.len() - i,
        {
            let end: usize = ends[i];
            assert(all[i as int] == end);
            let part = bytes::copy_range(data, start, end);
            let hash = hashing::blake3_hash(part.as_slice());
            let ghost before = chunks@;
            chunks.push(Chunk { data: part, hash });
            proof {
                assert(chunk_data(chunks@) =~= chunk_data(before).push(
                    data@.subrange(start as int, end as int),
                ));
                assert(pieces(data@, 0, all)[i as int] == data@.subrange(start as int, end as int));
                assert(pieces(data@, 0, all).subrange(0, i + 1) =~= pieces(data@, 0, all).subrange(
                    0,
                    i as int,
                ).push(pieces(data@, 0, all)[i as int]));
            }
            start = end;
            i = i + 1;
        }
        assert(pieces(data@, 0, all).subrange(0, i as int) =~= pieces(data@, 0, all));
        chunks
    }

    /// The chunks of input that arrives in parts.
    pub fn chunk_reader(&self, parts: &Vec<Vec<u8>>) -> (chunks: Vec<Chunk>)
        requires
            self.wf(),
        ensures
            chunk_data(chunks@) == self.chunks_from(joined(parts@, parts@.len()), 0),
            forall|i: int|
                0 <= i < chunks@.len() ==> (#[trigger] chunks@[i]).hash@ == hashing::blake3(
                    chunks@[i].data@,
                ),
    {
        let mut all: Vec<u8> = Vec::new();
        let mut i: usize = 0;
        while i < parts.len()
            invariant
                i <= parts@.len(),
                all@ == joined(parts@, i as nat),
            decreases parts@.len() - i,
        {
            bytes::put_slice(&mut all, parts[i].as_slice());
            i = i + 1;
        }
        self.chunk_slice(all.as_slice())
    }

    /// The chunks' ends increase up to the end of the data.
    pub proof fn ends_are_increasing(&self, data: Seq<u8>, start: int)
        requires
            0 <= start <= data.len(),
        ensures
            ends_fit(data, start, self.ends_from(data, start)),
        decreases data.len() - start,
    {
        let ends = self.ends_from(data, start);
        if start < data.len() {
            let e = self.end_from(data, start, start, 0);
            self.end_is_behind(data, start, start, 0);
            self.ends_are_increasing(data, e);
            let rest = self.ends_from(data, e);
            assert(ends == seq![e] + rest);
            assert forall|i: int| 0 <= i < ends.len() implies start_of(start, ends, i)
                < #[trigger] ends[i] <= data.len() by {
                if i > 0 {
                    assert(ends[i] == rest[i - 1]);
                    assert(start_of(e, rest, i - 1) < rest[i - 1]);
                    assert(start_of(start, ends, i) == start_of(e, rest, i - 1));
                }
            }
            if rest.len() > 0 {
                assert(ends.last() == rest.last());
            }
        }
    }

    /// Every chunk has at most `max` bytes, and all but the last have at least
    /// `min`.
    pub proof fn chunk_sizes(&self, data: Seq<u8>, start: int, k: int)
        requires
            self.wf(),
            0 <= start,
            0 <= k < self.ends_from(data, start).len(),
        ensures
            ({
                let ends = self.ends_from(data, start);
                let size = ends[k] - start_of(start, ends, k);
                &&& size <= self.max
                &&& k < ends.len() - 1 ==> size >= self.min
            }),
        decreases k,
    {
        let e = self.end_from(data, start, start, 0);
        self.end_is_behind(data, start, start, 0);
        let ends = self.ends_from(data, start);
        let rest = self.ends_from(data, e);
        assert(ends == seq![e] + rest);
        if k == 0 {
            self.chunk_size(data, start, start, 0);
        } else {
            self.chunk_sizes(data, e, k - 1);
            assert(ends[k] == rest[k - 1]);
            assert(start_of(start, ends, k) == start_of(e, rest, k - 1));
        }
    }

    proof fn chunk_size(&self, data: Seq<u8>, start: int, i: int, hash: u64)
        requires
            self.wf(),
            0 <= start <= i <= data.len(),
            i - start < self.max,
        ensures
            ({
                let e = self.end_from(data, start, i, hash);
                e - start <= self.max && (e < data.len() ==> e - start >= self.min)
            }),
        decreases data.len() - i,
    {
        if i < data.len() {
            let h = gear_step(hash, data[i]);
            if !self.cuts(i - start + 1, h) {
                self.chunk_size(data, start, i + 1, h);
            }
        }
    }

    /// Put together, the chunks are the data.
    pub proof fn chunks_make_up_data(&self, data: Seq<u8>, start: int)
        requires
            0 <= start <= data.len(),
        ensures
            flattened(self.chunks_from(data, start)) == data.subrange(start, data.len() as int),
        decreases data.len() - start,
    {
        let chunks = self.chunks_from(data, start);
        if start < data.len() {
            let e = self.end_from(data, start, start, 0);
            self.end_is_behind(data, start, start, 0);
            self.chunks_make_up_data(data, e);
            let ends = self.ends_from(data, start);
            let rest = self.ends_from(data, e);
            assert(ends == seq![e] + rest);
            assert(chunks.drop_first() =~= self.chunks_from(data, e)) by {
                assert forall|i: int| 0 <= i < rest.len() implies chunks.drop_first()[i]
                    == #[trigger] self.chunks_from(data, e)[i] by {
                    assert(start_of(start, ends, i + 1) == start_of(e, rest, i));
                    assert(ends[i + 1] == rest[i]);
                }
            }
            assert(chunks[0] =~= data.subrange(start, e));
            assert(data.subrange(start, e) + data.subrange(e, data.len() as int) =~= data.subrange(
                start,
                data.len() as int,
            ));
        } else {
            assert(chunks =~= Seq::empty());
            assert(data.subrange(start, data.len() as int) =~= Seq::empty());
        }
    }

    /// Chunking falls back into step: where two byte strings end in the same
    /// bytes, and a chunk of each begins there, all their chunks from there on
    /// are the same.
    pub proof fn chunking_resynchronizes(&self, a: Seq<u8>, b: Seq<u8>, tail: Seq<u8>)
        ensures
            self.chunks_from(a + tail, a.len() as int) == self.chunks_from(
                b + tail,
                b.len() as int,
            ),
    {
        self.same_chunks_at(a, b, tail, 0);
    }

    proof fn same_chunks_at(&self, a: Seq<u8>, b: Seq<u8>, tail: Seq<u8>, k: int)
        requires
            0 <= k <= tail.len(),
        ensures
            self.chunks_from(a + tail, a.len() as int + k) == self.chunks_from(
                b + tail,
                b.len() as int + k,
            ),
        decreases tail.len() - k,
    {
        let x = a + tail;
        let y = b + tail;
        let p = a.len() as int + k;
        let q = b.len() as int + k;
        if k < tail.len() {
            self.same_end(a, b, tail, k, k, 0);
            let e = self.end_from(x, p, p, 0);
            let f = self.end_from(y, q, q, 0);
            self.end_is_behind(x, p, p, 0);
            let m = e - a.len();
            assert(f == b.len() + m);
            self.same_chunks_at(a, b, tail, m);
            let xe = self.ends_from(x, p);
            let ye = self.ends_from(y, q);
            let xr = self.ends_from(x, e);
            let yr = self.ends_from(y, f);
            assert(xe == seq![e] + xr);
            assert(ye == seq![f] + yr);
            assert(self.chunks_from(x, e).len() == xr.len());
            assert(self.chunks_from(y, f).len() == yr.len());
            assert forall|i: int| 0 <= i < xe.len() implies #[trigger] self.chunks_from(x, p)[i]
                == self.chunks_from(y, q)[i] by {
                if i == 0 {
                    assert(x.subrange(p, e) =~= y.subrange(q, f));
                } else {
                    assert(start_of(p, xe, i) == start_of(e, xr, i - 1));
                    assert(start_of(q, ye, i) == start_of(f, yr, i - 1));
                    assert(xe[i] == xr[i - 1] && ye[i] == yr[i - 1]);
                    assert(self.chunks_from(x, e)[i - 1] == self.chunks_from(y, f)[i - 1]);
                }
            }
            assert(self.chunks_from(x, p) =~= self.chunks_from(y, q));
        } else {
            assert(self.chunks_from(x, p) =~= Seq::empty());
            assert(self.chunks_from(y, q) =~= Seq::empty());
        }
    }

    proof fn same_end(&self, a: Seq<u8>, b: Seq<u8>, tail: Seq<u8>, k: int, i: int, hash: u64)
        requires
            0 <= k <= i <= tail.len(),
        ensures
            self.end_from(a + tail, a.len() as int + k, a.len() as int + i, hash) - a.len()
                == self.end_from(b + tail, b.len() as int + k, b.len() as int + i, hash) - b.len(),
        decreases tail.len() - i,
    {
        if i < tail.len() {
            assert((a + tail)[a.len() as int + i] == tail[i]);
            assert((b + tail)[b.len() as int + i] == tail[i]);
            self.same_end(a, b, tail, k, i + 1, gear_step(hash, tail[i]));
        }
    }
}

/// Where the `i`th piece begins, given the pieces' ends.
pub open spec fn start_of(start: int, ends: Seq<int>, i: int) -> int {
    if i == 0 {
        start
    } else {
        ends[i - 1]
    }
}

/// The pieces of `data` that end at `ends`, the first one beginning at `start`.
pub open spec fn pieces(data: Seq<u8>, start: int, ends: Seq<int>) -> Seq<Seq<u8>> {
    Seq::new(ends.len(), |i: int| data.subrange(start_of(start, ends, i), ends[i]))
}

/// Whether ends increase from `start` to the end of the data.
pub open spec fn ends_fit(data: Seq<u8>, start: int, ends: Seq<int>) -> bool {
    &&& forall|i: int|
        0 <= i < ends.len() ==> start_of(start, ends, i) < #[trigger] ends[i] <= data.len()
    &&& ends.len() > 0 ==> ends.last() == data.len()
    &&& ends.len() == 0 ==> start == data.len()
}

/// The bytes of chunks.
pub open spec fn chunk_data(chunks: Seq<Chunk>) -> Seq<Seq<u8>> {
    Seq::new(chunks.len(), |i: int| chunks[i].data@)
}

/// The first `n` of some byte strings, one after the other.
pub open spec fn joined(parts: Seq<Vec<u8>>, n: nat) -> Seq<u8>
    decreases n,
{
    if n == 0 {
        Seq::empty()
    } else {
        joined(parts, (n - 1) as nat) + parts[n - 1]@
    }
}

/// Byte strings, one after the other.
pub open spec fn flattened(parts: Seq<Seq<u8>>) -> Seq<u8>
    decreases parts.len(),
{
    if parts.len() == 0 {
        Seq::empty()
    } else {
        parts[0] + flattened(parts.drop_first())
    }
}

/// No chunk ends where the data begins.
pub(crate) proof fn ends_are_positive(data: Seq<u8>, ends: Seq<int>, i: int)
    requires
        0 <= i < ends.len(),
        ends_fit(data, 0, ends),
    ensures
        ends[i] > 0,
    decreases i,
{
    assert(start_of(0, ends, i) < ends[i]);
    if i > 0 {
        ends_are_positive(data, ends, i - 1);
    }
}

/// The rolling hash of some bytes: each doubles what came before and adds what the table
/// holds for it.
pub open spec fn gear_hash(bytes: Seq<u8>) -> u64 {
    bytes.fold_left(0u64, |h: u64, b: u8| (h << 1u64).wrapping_add(GEAR_TABLE[b as int]))
}

/// A chunk ends at the first byte, from the smallest size on, at which the low bits of
/// the rolling hash of its bytes are zero; at the largest size where there is none, and
/// with the data.
pub proof fn chunk_ends_at_first_mark(c: GearChunker, data: Seq<u8>, start: int)
    requires
        c.wf(),
        0 <= start < data.len(),
    ensures
        forall|bytes: Seq<u8>| #[trigger]
            gear_hash(bytes) == bytes.fold_left(
                0u64,
                |h: u64, b: u8| (h << 1u64).wrapping_add(GEAR_TABLE[b as int]),
            ),
        ({
            let n = c.ends_from(data, start)[0] - start;
            let mask = (c.avg - 1) as u64;
            &&& 0 < n <= c.max
            &&& start + n <= data.len()
            &&& forall|m: int|
                c.min <= m < n ==> #[trigger] gear_hash(data.subrange(start, start + m)) & mask != 0
            &&& start + n < data.len() ==> n >= c.min && (n == c.max || gear_hash(
                data.subrange(start, start + n),
            ) & mask == 0)
        }),
{
    let e = c.end_from(data, start, start, 0);
    c.end_is_behind(data, start, start, 0);
    assert(c.ends_from(data, start)[0] == e);
    assert(data.subrange(start, start) =~= Seq::empty());
    assert(gear_hash(data.subrange(start, start)) == 0);
    first_mark(c, data, start, start);
}

proof fn first_mark(c: GearChunker, data: Seq<u8>, start: int, i: int)
    requires
        c.wf(),
        0 <= start <= i <= data.len(),
        i - start < c.max,
        forall|m: int|
            c.min <= m <= i - start ==> #[trigger] gear_hash(data.subrange(start, start + m)) & (
            (c.avg - 1) as u64) != 0,
    ensures
        ({
            let e = c.end_from(data, start, i, gear_hash(data.subrange(start, i)));
            let n = e - start;
            let mask = (c.avg - 1) as u64;
            &&& n <= c.max
            &&& forall|m: int|
                c.min <= m < n ==> #[trigger] gear_hash(data.subrange(start, start + m)) & mask != 0
            &&& e < data.len() ==> n >= c.min && (n == c.max || gear_hash(
                data.subrange(start, start + n),
            ) & mask == 0)
        }),
    decreases data.len() - i,
{
    if i < data.len() {
        let before = data.subrange(start, i);
        let with = data.subrange(start, i + 1);
        assert(with.drop_last() =~= before);
        assert(with.last() == data[i]);
        assert(gear_hash(with) == gear_step(gear_hash(before), data[i]));
        if !c.cuts(i - start + 1, gear_hash(with)) {
            first_mark(c, data, start, i + 1);
        }
    }
}

/// Chunks are put together as sequences are, and the parts of a file as they were read.
pub proof fn chunks_are_concatenated(chunks: Seq<Seq<u8>>, parts: Seq<Vec<u8>>, n: nat)
    requires
        n <= parts.len(),
    ensures
        flattened(chunks) == chunks.flatten(),
        joined(parts, n) == parts.take(n as int).map_values(|p: Vec<u8>| p@).flatten(),
    decreases chunks.len() + n,
{
    let f = |p: Vec<u8>| p@;
    if chunks.len() > 0 {
        chunks_are_concatenated(chunks.drop_first(), parts, n);
    }
    let m = parts.take(n as int).map_values(f);
    m.lemma_flatten_and_flatten_alt_are_equivalent();
    if n > 0 {
        chunks_are_concatenated(chunks, parts, (n - 1) as nat);
        let before = parts.take(n - 1).map_values(f);
        before.lemma_flatten_and_flatten_alt_are_equivalent();
        assert(m.drop_last() =~= before);
        assert(m.last() == parts[n - 1]@);
    } else {
        assert(m =~= Seq::empty());
    }
}

/// A chunk holds the bytes between the end before it and its own, and chunks stand for
/// their bytes, each at its place.
pub proof fn chunks_lie_between_ends(
    c: GearChunker,
    data: Seq<u8>,
    start: int,
    k: int,
    chunks: Seq<Chunk>,
)
    requires
        0 <= start <= data.len(),
        0 <= k < c.ends_from(data, start).len(),
    ensures
        c.chunks_from(data, start).len() == c.ends_from(data, start).len(),
        c.chunks_from(data, start)[k] == data.subrange(
            if k == 0 {
                start
            } else {
                c.ends_from(data, start)[k - 1]
            },
            c.ends_from(data, start)[k],
        ),
        chunk_data(chunks).len() == chunks.len(),
        forall|i: int| 0 <= i < chunks.len() ==> #[trigger] chunk_data(chunks)[i] == chunks[i].data@,
{
}

/// Every chunk ends as the first one does: the ends behind a chunk are those of what is
/// left.
pub proof fn later_chunks_end_alike(c: GearChunker, data: Seq<u8>, start: int)
    requires
        0 <= start < data.len(),
    ensures
        c.ends_from(data, start).drop_first() == c.ends_from(data, c.ends_from(data, start)[0]),
        c.ends_from(data, data.len() as int).len() == 0,
{
    let e = c.end_from(data, start, start, 0);
    assert(c.ends_from(data, start).drop_first() =~= c.ends_from(data, e));
}

} // verus!
