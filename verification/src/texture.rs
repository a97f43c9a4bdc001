use vstd::prelude::*;
use rand::SeedableRng;
use rand::seq::SliceRandom;
use rand_chacha::ChaCha8Rng;

verus! {

/// The bytes `values` after `rand::seq::SliceRandom::shuffle` with a
/// `ChaCha8Rng` seeded by `rand::SeedableRng::seed_from_u64(seed)`: a function
/// of the bytes and the seed alone (the seeding is documented as reproducible
/// and the shuffle only draws from the generator).
pub uninterp spec fn spec_seeded_shuffle(values: Seq<u8>, seed: u64) -> Seq<u8>;

/// Seeds a `ChaCha8Rng` with `ChaCha8Rng::seed_from_u64(seed)` and calls
/// `rand::seq::SliceRandom::shuffle` on the bytes with it. Trusted: the result
/// is `spec_seeded_shuffle` of the bytes and the seed, and, the shuffle only
/// swapping elements, it holds the same bytes as before.
#[verifier::external_body]
fn shuffle_seeded(values: &mut Vec<u8>, seed: u64)
    ensures
        final(values)@ == spec_seeded_shuffle(old(values)@, seed),
        final(values)@.len() == old(values)@.len(),
        final(values)@.to_multiset() == old(values)@.to_multiset(),
{
    let mut rng = ChaCha8Rng::seed_from_u64(seed);
    values.as_mut_slice().shuffle(&mut rng);
}

/// The fixed permutation table used for Perlin noise when no seed is given.
pub open spec fn spec_default_permutation() -> Seq<u8> {
    seq![
        151, 160, 137, 91, 90, 15, 131, 13, 201, 95, 96, 53, 194, 233, 7, 225, 140, 36, 103, 30,
        69, 142, 8, 99, 37, 240, 21, 10, 23, 190, 6, 148, 247, 120, 234, 75, 0, 26, 197, 62, 94,
        252, 219, 203, 117, 35, 11, 32, 57, 177, 33, 88, 237, 149, 56, 87, 174, 20, 125, 136, 171,
        168, 68, 175, 74, 165, 71, 134, 139, 48, 27, 166, 77, 146, 158, 231, 83, 111, 229, 122, 60,
        211, 133, 230, 220, 105, 92, 41, 55, 46, 245, 40, 244, 102, 143, 54, 65, 25, 63, 161, 1,
        216, 80, 73, 209, 76, 132, 187, 208, 89, 18, 169, 200, 196, 135, 130, 116, 188, 159, 86,
        164, 100, 109, 198, 173, 186, 3, 64, 52, 217, 226, 250, 124, 123, 5, 202, 38, 147, 118,
        126, 255, 82, 85, 212, 207, 206, 59, 227, 47, 16, 58, 17, 182, 189, 28, 42, 223, 183, 170,
        213, 119, 248, 152, 2, 44, 154, 163, 70, 221, 153, 101, 155, 167, 43, 172, 9, 129, 22, 39,
        253, 19, 98, 108, 110, 79, 113, 224, 232, 178, 185, 112, 104, 218, 246, 97, 228, 251, 34,
        242, 193, 238, 210, 144, 12, 191, 179, 162, 241, 81, 51, 145, 235, 249, 14, 239, 107, 49,
        192, 214, 31, 181, 199, 106, 157, 184, 84, 204, 176, 115, 121, 50, 45, 127, 4, 150, 254,
        138, 236, 205, 93, 222, 114, 67, 29, 24, 72, 243, 141, 128, 195, 78, 66, 215, 61, 156, 180,
    ]
}

/// The position of byte `v` in the default permutation table.
spec fn default_position(v: u8) -> int {
    match v {
        151 => 0, 160 => 1, 137 => 2, 91 => 3, 90 => 4, 15 => 5, 131 => 6, 13 => 7, 201 => 8,
        95 => 9, 96 => 10, 53 => 11, 194 => 12, 233 => 13, 7 => 14, 225 => 15, 140 => 16,
        36 => 17, 103 => 18, 30 => 19, 69 => 20, 142 => 21, 8 => 22, 99 => 23, 37 => 24,
        240 => 25, 21 => 26, 10 => 27, 23 => 28, 190 => 29, 6 => 30, 148 => 31, 247 => 32,
        120 => 33, 234 => 34, 75 => 35, 0 => 36, 26 => 37, 197 => 38, 62 => 39, 94 => 40,
        252 => 41, 219 => 42, 203 => 43, 117 => 44, 35 => 45, 11 => 46, 32 => 47, 57 => 48,
        177 => 49, 33 => 50, 88 => 51, 237 => 52, 149 => 53, 56 => 54, 87 => 55, 174 => 56,
        20 => 57, 125 => 58, 136 => 59, 171 => 60, 168 => 61, 68 => 62, 175 => 63, 74 => 64,
        165 => 65, 71 => 66, 134 => 67, 139 => 68, 48 => 69, 27 => 70, 166 => 71, 77 => 72,
        146 => 73, 158 => 74, 231 => 75, 83 => 76, 111 => 77, 229 => 78, 122 => 79, 60 => 80,
        211 => 81, 133 => 82, 230 => 83, 220 => 84, 105 => 85, 92 => 86, 41 => 87, 55 => 88,
        46 => 89, 245 => 90, 40 => 91, 244 => 92, 102 => 93, 143 => 94, 54 => 95, 65 => 96,
        25 => 97, 63 => 98, 161 => 99, 1 => 100, 216 => 101, 80 => 102, 73 => 103, 209 => 104,
        76 => 105, 132 => 106, 187 => 107, 208 => 108, 89 => 109, 18 => 110, 169 => 111,
        200 => 112, 196 => 113, 135 => 114, 130 => 115, 116 => 116, 188 => 117, 159 => 118,
        86 => 119, 164 => 120, 100 => 121, 109 => 122, 198 => 123, 173 => 124, 186 => 125,
        3 => 126, 64 => 127, 52 => 128, 217 => 129, 226 => 130, 250 => 131, 124 => 132,
        123 => 133, 5 => 134, 202 => 135, 38 => 136, 147 => 137, 118 => 138, 126 => 139,
        255 => 140, 82 => 141, 85 => 142, 212 => 143, 207 => 144, 206 => 145, 59 => 146,
        227 => 147, 47 => 148, 16 => 149, 58 => 150, 17 => 151, 182 => 152, 189 => 153,
        28 => 154, 42 => 155, 223 => 156, 183 => 157, 170 => 158, 213 => 159, 119 => 160,
        248 => 161, 152 => 162, 2 => 163, 44 => 164, 154 => 165, 163 => 166, 70 => 167,
        221 => 168, 153 => 169, 101 => 170, 155 => 171, 167 => 172, 43 => 173, 172 => 174,
        9 => 175, 129 => 176, 22 => 177, 39 => 178, 253 => 179, 19 => 180, 98 => 181,
        108 => 182, 110 => 183, 79 => 184, 113 => 185, 224 => 186, 232 => 187, 178 => 188,
        185 => 189, 112 => 190, 104 => 191, 218 => 192, 246 => 193, 97 => 194, 228 => 195,
        251 => 196, 34 => 197, 242 => 198, 193 => 199, 238 => 200, 210 => 201, 144 => 202,
        12 => 203, 191 => 204, 179 => 205, 162 => 206, 241 => 207, 81 => 208, 51 => 209,
        145 => 210, 235 => 211, 249 => 212, 14 => 213, 239 => 214, 107 => 215, 49 => 216,
        192 => 217, 214 => 218, 31 => 219, 181 => 220, 199 => 221, 106 => 222, 157 => 223,
        184 => 224, 84 => 225, 204 => 226, 176 => 227, 115 => 228, 121 => 229, 50 => 230,
        45 => 231, 127 => 232, 4 => 233, 150 => 234, 254 => 235, 138 => 236, 236 => 237,
        205 => 238, 93 => 239, 222 => 240, 114 => 241, 67 => 242, 29 => 243, 24 => 244,
        72 => 245, 243 => 246, 141 => 247, 128 => 248, 195 => 249, 78 => 250, 66 => 251,
        215 => 252, 61 => 253, 156 => 254, 180 => 255,
    }
}

/// The default table is a permutation of the bytes: it holds 256 entries and
/// every byte value exactly once.
pub proof fn lemma_default_permutation()
    ensures
        spec_default_permutation().len() == 256,
        spec_default_permutation().no_duplicates(),
        forall|v: u8| #[trigger] spec_default_permutation().contains(v),
{
    let t = spec_default_permutation();
    assert forall|k: int| 0 <= k < 256 implies #[trigger] default_position(t[k]) == k by {
        assert(
            k == 0 || k == 1 || k == 2 || k == 3 || k == 4 || k == 5 || k == 6 || k == 7 ||
            k == 8 || k == 9 || k == 10 || k == 11 || k == 12 || k == 13 || k == 14 || k == 15 ||
            k == 16 || k == 17 || k == 18 || k == 19 || k == 20 || k == 21 || k == 22 || k == 23 ||
            k == 24 || k == 25 || k == 26 || k == 27 || k == 28 || k == 29 || k == 30 || k == 31 ||
            k == 32 || k == 33 || k == 34 || k == 35 || k == 36 || k == 37 || k == 38 || k == 39 ||
            k == 40 || k == 41 || k == 42 || k == 43 || k == 44 || k == 45 || k == 46 || k == 47 ||
            k == 48 || k == 49 || k == 50 || k == 51 || k == 52 || k == 53 || k == 54 || k == 55 ||
            k == 56 || k == 57 || k == 58 || k == 59 || k == 60 || k == 61 || k == 62 || k == 63 ||
            k == 64 || k == 65 || k == 66 || k == 67 || k == 68 || k == 69 || k == 70 || k == 71 ||
            k == 72 || k == 73 || k == 74 || k == 75 || k == 76 || k == 77 || k == 78 || k == 79 ||
            k == 80 || k == 81 || k == 82 || k == 83 || k == 84 || k == 85 || k == 86 || k == 87 ||
            k == 88 || k == 89 || k == 90 || k == 91 || k == 92 || k == 93 || k == 94 || k == 95 ||
            k == 96 || k == 97 || k == 98 || k == 99 || k == 100 || k == 101 || k == 102 ||
            k == 103 || k == 104 || k == 105 || k == 106 || k == 107 || k == 108 || k == 109 ||
            k == 110 || k == 111 || k == 112 || k == 113 || k == 114 || k == 115 || k == 116 ||
            k == 117 || k == 118 || k == 119 || k == 120 || k == 121 || k == 122 || k == 123 ||
            k == 124 || k == 125 || k == 126 || k == 127 || k == 128 || k == 129 || k == 130 ||
            k == 131 || k == 132 || k == 133 || k == 134 || k == 135 || k == 136 || k == 137 ||
            k == 138 || k == 139 || k == 140 || k == 141 || k == 142 || k == 143 || k == 144 ||
            k == 145 || k == 146 || k == 147 || k == 148 || k == 149 || k == 150 || k == 151 ||
            k == 152 || k == 153 || k == 154 || k == 155 || k == 156 || k == 157 || k == 158 ||
            k == 159 || k == 160 || k == 161 || k == 162 || k == 163 || k == 164 || k == 165 ||
            k == 166 || k == 167 || k == 168 || k == 169 || k == 170 || k == 171 || k == 172 ||
            k == 173 || k == 174 || k == 175 || k == 176 || k == 177 || k == 178 || k == 179 ||
            k == 180 || k == 181 || k == 182 || k == 183 || k == 184 || k == 185 || k == 186 ||
            k == 187 || k == 188 || k == 189 || k == 190 || k == 191 || k == 192 || k == 193 ||
            k == 194 || k == 195 || k == 196 || k == 197 || k == 198 || k == 199 || k == 200 ||
            k == 201 || k == 202 || k == 203 || k == 204 || k == 205 || k == 206 || k == 207 ||
            k == 208 || k == 209 || k == 210 || k == 211 || k == 212 || k == 213 || k == 214 ||
            k == 215 || k == 216 || k == 217 || k == 218 || k == 219 || k == 220 || k == 221 ||
            k == 222 || k == 223 || k == 224 || k == 225 || k == 226 || k == 227 || k == 228 ||
            k == 229 || k == 230 || k == 231 || k == 232 || k == 233 || k == 234 || k == 235 ||
            k == 236 || k == 237 || k == 238 || k == 239 || k == 240 || k == 241 || k == 242 ||
            k == 243 || k == 244 || k == 245 || k == 246 || k == 247 || k == 248 || k == 249 ||
            k == 250 || k == 251 || k == 252 || k == 253 || k == 254 || k == 255
        );
    }
    assert forall|v: u8| #[trigger] t.contains(v) by {
        assert(
            v == 0 || v == 1 || v == 2 || v == 3 || v == 4 || v == 5 || v == 6 || v == 7 ||
            v == 8 || v == 9 || v == 10 || v == 11 || v == 12 || v == 13 || v == 14 || v == 15 ||
            v == 16 || v == 17 || v == 18 || v == 19 || v == 20 || v == 21 || v == 22 || v == 23 ||
            v == 24 || v == 25 || v == 26 || v == 27 || v == 28 || v == 29 || v == 30 || v == 31 ||
            v == 32 || v == 33 || v == 34 || v == 35 || v == 36 || v == 37 || v == 38 || v == 39 ||
            v == 40 || v == 41 || v == 42 || v == 43 || v == 44 || v == 45 || v == 46 || v == 47 ||
            v == 48 || v == 49 || v == 50 || v == 51 || v == 52 || v == 53 || v == 54 || v == 55 ||
            v == 56 || v == 57 || v == 58 || v == 59 || v == 60 || v == 61 || v == 62 || v == 63 ||
            v == 64 || v == 65 || v == 66 || v == 67 || v == 68 || v == 69 || v == 70 || v == 71 ||
            v == 72 || v == 73 || v == 74 || v == 75 || v == 76 || v == 77 || v == 78 || v == 79 ||
            v == 80 || v == 81 || v == 82 || v == 83 || v == 84 || v == 85 || v == 86 || v == 87 ||
            v == 88 || v == 89 || v == 90 || v == 91 || v == 92 || v == 93 || v == 94 || v == 95 ||
            v == 96 || v == 97 || v == 98 || v == 99 || v == 100 || v == 101 || v == 102 ||
            v == 103 || v == 104 || v == 105 || v == 106 || v == 107 || v == 108 || v == 109 ||
            v == 110 || v == 111 || v == 112 || v == 113 || v == 114 || v == 115 || v == 116 ||
            v == 117 || v == 118 || v == 119 || v == 120 || v == 121 || v == 122 || v == 123 ||
            v == 124 || v == 125 || v == 126 || v == 127 || v == 128 || v == 129 || v == 130 ||
            v == 131 || v == 132 || v == 133 || v == 134 || v == 135 || v == 136 || v == 137 ||
            v == 138 || v == 139 || v == 140 || v == 141 || v == 142 || v == 143 || v == 144 ||
            v == 145 || v == 146 || v == 147 || v == 148 || v == 149 || v == 150 || v == 151 ||
            v == 152 || v == 153 || v == 154 || v == 155 || v == 156 || v == 157 || v == 158 ||
            v == 159 || v == 160 || v == 161 || v == 162 || v == 163 || v == 164 || v == 165 ||
            v == 166 || v == 167 || v == 168 || v == 169 || v == 170 || v == 171 || v == 172 ||
            v == 173 || v == 174 || v == 175 || v == 176 || v == 177 || v == 178 || v == 179 ||
            v == 180 || v == 181 || v == 182 || v == 183 || v == 184 || v == 185 || v == 186 ||
            v == 187 || v == 188 || v == 189 || v == 190 || v == 191 || v == 192 || v == 193 ||
            v == 194 || v == 195 || v == 196 || v == 197 || v == 198 || v == 199 || v == 200 ||
            v == 201 || v == 202 || v == 203 || v == 204 || v == 205 || v == 206 || v == 207 ||
            v == 208 || v == 209 || v == 210 || v == 211 || v == 212 || v == 213 || v == 214 ||
            v == 215 || v == 216 || v == 217 || v == 218 || v == 219 || v == 220 || v == 221 ||
            v == 222 || v == 223 || v == 224 || v == 225 || v == 226 || v == 227 || v == 228 ||
            v == 229 || v == 230 || v == 231 || v == 232 || v == 233 || v == 234 || v == 235 ||
            v == 236 || v == 237 || v == 238 || v == 239 || v == 240 || v == 241 || v == 242 ||
            v == 243 || v == 244 || v == 245 || v == 246 || v == 247 || v == 248 || v == 249 ||
            v == 250 || v == 251 || v == 252 || v == 253 || v == 254 || v == 255
        );
        let k = default_position(v);
        assert(0 <= k < 256 && t[k] == v);
    }
    assert forall|i: int, j: int| 0 <= i < t.len() && 0 <= j < t.len() && i != j implies t[i] != t[j] by {
        if t[i] == t[j] {
            assert(default_position(t[i]) == default_position(t[j]));
        }
    }
}

/// The byte values 0 to 255 in increasing order.
pub open spec fn spec_identity_bytes() -> Seq<u8> {
    Seq::new(256, |i: int| i as u8)
}

/// A table with the same bytes as 0 to 255 holds every byte value, each once.
pub proof fn lemma_byte_permutation(t: Seq<u8>)
    requires
        t.to_multiset() == spec_identity_bytes().to_multiset(),
    ensures
        t.len() == 256,
        t.no_duplicates(),
        forall|v: u8| #[trigger] t.contains(v),
{
    broadcast use vstd::seq_lib::group_to_multiset_ensures;
    let id = spec_identity_bytes();
    assert forall|i: int, j: int| 0 <= i < id.len() && 0 <= j < id.len() && i != j implies id[i] != id[j] by {
        assert(id[i] == i as u8 && id[j] == j as u8);
    }
    assert(id.no_duplicates());
    id.lemma_multiset_has_no_duplicates();
    assert forall|v: u8| #[trigger] t.contains(v) by {
        assert(id[v as int] == v);
        assert(id.contains(v));
        assert(id.to_multiset().count(v) > 0);
        assert(t.to_multiset().count(v) > 0);
    }
    assert forall|x: u8| t.to_multiset().contains(x) implies t.to_multiset().count(x) == 1 by {
        assert(id.to_multiset().contains(x));
    }
    t.lemma_multiset_has_no_duplicates_conv();
    assert(t.len() == t.to_multiset().len());
    assert(id.len() == id.to_multiset().len());
}

/// The permutation table for Perlin noise: the fixed table without a seed,
/// otherwise the bytes 0 to 255 shuffled by a ChaCha generator seeded with it.
pub fn build_permutation(seed: Option<u64>) -> (res: Vec<u8>)
    ensures
        res@.len() == 256,
        seed is None ==> res@ == spec_default_permutation(),
        seed matches Some(s) ==> res@ == spec_seeded_shuffle(spec_identity_bytes(), s),
        seed is Some ==> res@.to_multiset() == spec_identity_bytes().to_multiset(),
        res@.no_duplicates(),
        forall|v: u8| #[trigger] res@.contains(v),
{
    match seed {
        Some(seed) => {
            let mut values: Vec<u8> = Vec::new();
            let mut v: u32 = 0;
            while v < 256
                invariant
                    v <= 256,
                    values@ == spec_identity_bytes().subrange(0, v as int),
                decreases 256 - v,
            {
                values.push(v as u8);
                v = v + 1;
            }
            assert(values@ =~= spec_identity_bytes());
            shuffle_seeded(&mut values, seed);
            proof {
                lemma_byte_permutation(values@);
            }
            values
        },
        None => {
            let res: Vec<u8> = vec![
                151, 160, 137, 91, 90, 15, 131, 13, 201, 95, 96, 53, 194, 233, 7, 225, 140, 36,
                103, 30, 69, 142, 8, 99, 37, 240, 21, 10, 23, 190, 6, 148, 247, 120, 234, 75, 0,
                26, 197, 62, 94, 252, 219, 203, 117, 35, 11, 32, 57, 177, 33, 88, 237, 149, 56, 87,
                174, 20, 125, 136, 171, 168, 68, 175, 74, 165, 71, 134, 139, 48, 27, 166, 77, 146,
                158, 231, 83, 111, 229, 122, 60, 211, 133, 230, 220, 105, 92, 41, 55, 46, 245, 40,
                244, 102, 143, 54, 65, 25, 63, 161, 1, 216, 80, 73, 209, 76, 132, 187, 208, 89, 18,
                169, 200, 196, 135, 130, 116, 188, 159, 86, 164, 100, 109, 198, 173, 186, 3, 64,
                52, 217, 226, 250, 124, 123, 5, 202, 38, 147, 118, 126, 255, 82, 85, 212, 207, 206,
                59, 227, 47, 16, 58, 17, 182, 189, 28, 42, 223, 183, 170, 213, 119, 248, 152, 2,
                44, 154, 163, 70, 221, 153, 101, 155, 167, 43, 172, 9, 129, 22, 39, 253, 19, 98,
                108, 110, 79, 113, 224, 232, 178, 185, 112, 104, 218, 246, 97, 228, 251, 34, 242,
                193, 238, 210, 144, 12, 191, 179, 162, 241, 81, 51, 145, 235, 249, 14, 239, 107,
                49, 192, 214, 31, 181, 199, 106, 157, 184, 84, 204, 176, 115, 121, 50, 45, 127, 4,
                150, 254, 138, 236, 205, 93, 222, 114, 67, 29, 24, 72, 243, 141, 128, 195, 78, 66,
                215, 61, 156, 180,
            ];
            proof {
                lemma_default_permutation();
            }
            res
        },
    }
}

/// The hashes of the four lattice corners around cell `(xi, yi)` of Perlin
/// noise, in the order `(aa, ab, ba, bb)`: `a` and `b` are the table entries
/// of the cell's column and the next, and each corner hash is the table entry
/// at that entry plus the row (or the next row), all wrapping at 256.
pub open spec fn spec_lattice_hashes(perm: Seq<u8>, xi: int, yi: int) -> (u8, u8, u8, u8) {
    let x = xi % 256;
    let y = yi % 256;
    let x1 = (x + 1) % 256;
    let y1 = (y + 1) % 256;
    let a = perm[x] as int;
    let b = perm[x1] as int;
    (perm[(a + y) % 256], perm[(a + y1) % 256], perm[(b + y) % 256], perm[(b + y1) % 256])
}

/// The hashes of the four lattice corners around cell `(xi, yi)`, where `xi`
/// and `yi` are the floors of the noise coordinates.
pub fn lattice_hashes(perm: &Vec<u8>, xi: i32, yi: i32) -> (res: (u8, u8, u8, u8))
    requires
        perm@.len() == 256,
    ensures
        res == spec_lattice_hashes(perm@, xi as int, yi as int),
        res.0 == perm@[(perm@[xi as int % 256] + yi as int % 256) % 256],
        res.1 == perm@[(perm@[xi as int % 256] + (yi as int + 1) % 256) % 256],
        res.2 == perm@[(perm@[(xi as int + 1) % 256] + yi as int % 256) % 256],
        res.3 == perm@[(perm@[(xi as int + 1) % 256] + (yi as int + 1) % 256) % 256],
{
    let xm: i32 = xi & 255;
    let ym: i32 = yi & 255;
    assert(0 <= xm < 256 && xm as int == (xi as int) % 256) by (bit_vector)
        requires xm == xi & 255;
    assert(0 <= ym < 256 && ym as int == (yi as int) % 256) by (bit_vector)
        requires ym == yi & 255;
    let x = xm as usize;
    let y = ym as usize;
    let x1 = (x + 1) % 256;
    let y1 = (y + 1) % 256;
    let a = perm[x] as usize;
    let aa = perm[(a + y) % 256];
    let ab = perm[(a + y1) % 256];
    let b = perm[x1] as usize;
    let ba = perm[(b + y) % 256];
    let bb = perm[(b + y1) % 256];
    proof {
        lemma_lattice_formula(perm@, xi as int, yi as int);
    }
    (aa, ab, ba, bb)
}

/// The corner hashes of cell `(x, y)`: with `a` the table entry of column `x`
/// and `b` that of column `x + 1`, the corner of row `y` is the entry at
/// `a + y` (or `b + y`), and that of row `y + 1` the entry at `a + y + 1`
/// (or `b + y + 1`), all wrapping at 256.
pub proof fn lemma_lattice_formula(perm: Seq<u8>, x: int, y: int)
    requires
        perm.len() == 256,
    ensures
        spec_lattice_hashes(perm, x, y).0 == perm[(perm[x % 256] + y % 256) % 256],
        spec_lattice_hashes(perm, x, y).1 == perm[(perm[x % 256] + (y + 1) % 256) % 256],
        spec_lattice_hashes(perm, x, y).2 == perm[(perm[(x + 1) % 256] + y % 256) % 256],
        spec_lattice_hashes(perm, x, y).3 == perm[(perm[(x + 1) % 256] + (y + 1) % 256) % 256],
{
    lemma_mod_step(x);
    lemma_mod_step(y);
    let a = perm[x % 256] as int;
    let b = perm[(x + 1) % 256] as int;
    lemma_add_mod_inner(a, y);
    lemma_add_mod_inner(a, y + 1);
    lemma_add_mod_inner(b, y);
    lemma_add_mod_inner(b, y + 1);
}

/// Neighbouring cells share corners: the row `y + 1` corners of cell `(x, y)`
/// are the row corners of cell `(x, y + 1)`, and the column `x + 1` corners of
/// cell `(x, y)` are the column corners of cell `(x + 1, y)`.
pub proof fn lemma_lattice_neighbours(perm: Seq<u8>, x: int, y: int)
    requires
        perm.len() == 256,
    ensures
        spec_lattice_hashes(perm, x, y + 1).0 == spec_lattice_hashes(perm, x, y).1,
        spec_lattice_hashes(perm, x, y + 1).2 == spec_lattice_hashes(perm, x, y).3,
        spec_lattice_hashes(perm, x + 1, y).0 == spec_lattice_hashes(perm, x, y).2,
        spec_lattice_hashes(perm, x + 1, y).1 == spec_lattice_hashes(perm, x, y).3,
{
    lemma_lattice_formula(perm, x, y);
    lemma_lattice_formula(perm, x, y + 1);
    lemma_lattice_formula(perm, x + 1, y);
}

/// Stepping a coordinate by one steps its remainder modulo 256 by one, wrapping.
proof fn lemma_mod_step(x: int)
    ensures
        (x % 256 + 1) % 256 == (x + 1) % 256,
{
    assert((x % 256 + 1) % 256 == (x + 1) % 256) by (nonlinear_arith);
}

/// Reducing the second term modulo 256 first does not change a sum modulo 256.
proof fn lemma_add_mod_inner(a: int, y: int)
    ensures
        (a + y % 256) % 256 == (a + y) % 256,
{
    assert((a + y % 256) % 256 == (a + y) % 256) by (nonlinear_arith);
}

} // verus!
