//! Arithmetic in the field GF(2^8) with reduction polynomial x^8 + x^4 + x^3 + x + 1.
//!
//! Multiplication and inversion go through precomputed logarithm and exponential
//! tables for the generator 3. The tables are proved to agree with the bit-level
//! definition of the field product, from which the field laws follow.
use vstd::prelude::*;

verus! {

/// Discrete logarithm to base 3 of each nonzero byte; the entry for 0 is unused.
pub const GF256_LOG: [u8; 256] = [
    0xff, 0x00, 0x19, 0x01, 0x32, 0x02, 0x1a, 0xc6, 0x4b, 0xc7, 0x1b, 0x68, 0x33, 0xee, 0xdf, 0x03,
    0x64, 0x04, 0xe0, 0x0e, 0x34, 0x8d, 0x81, 0xef, 0x4c, 0x71, 0x08, 0xc8, 0xf8, 0x69, 0x1c, 0xc1,
    0x7d, 0xc2, 0x1d, 0xb5, 0xf9, 0xb9, 0x27, 0x6a, 0x4d, 0xe4, 0xa6, 0x72, 0x9a, 0xc9, 0x09, 0x78,
    0x65, 0x2f, 0x8a, 0x05, 0x21, 0x0f, 0xe1, 0x24, 0x12, 0xf0, 0x82, 0x45, 0x35, 0x93, 0xda, 0x8e,
    0x96, 0x8f, 0xdb, 0xbd, 0x36, 0xd0, 0xce, 0x94, 0x13, 0x5c, 0xd2, 0xf1, 0x40, 0x46, 0x83, 0x38,
    0x66, 0xdd, 0xfd, 0x30, 0xbf, 0x06, 0x8b, 0x62, 0xb3, 0x25, 0xe2, 0x98, 0x22, 0x88, 0x91, 0x10,
    0x7e, 0x6e, 0x48, 0xc3, 0xa3, 0xb6, 0x1e, 0x42, 0x3a, 0x6b, 0x28, 0x54, 0xfa, 0x85, 0x3d, 0xba,
    0x2b, 0x79, 0x0a, 0x15, 0x9b, 0x9f, 0x5e, 0xca, 0x4e, 0xd4, 0xac, 0xe5, 0xf3, 0x73, 0xa7, 0x57,
    0xaf, 0x58, 0xa8, 0x50, 0xf4, 0xea, 0xd6, 0x74, 0x4f, 0xae, 0xe9, 0xd5, 0xe7, 0xe6, 0xad, 0xe8,
    0x2c, 0xd7, 0x75, 0x7a, 0xeb, 0x16, 0x0b, 0xf5, 0x59, 0xcb, 0x5f, 0xb0, 0x9c, 0xa9, 0x51, 0xa0,
    0x7f, 0x0c, 0xf6, 0x6f, 0x17, 0xc4, 0x49, 0xec, 0xd8, 0x43, 0x1f, 0x2d, 0xa4, 0x76, 0x7b, 0xb7,
    0xcc, 0xbb, 0x3e, 0x5a, 0xfb, 0x60, 0xb1, 0x86, 0x3b, 0x52, 0xa1, 0x6c, 0xaa, 0x55, 0x29, 0x9d,
    0x97, 0xb2, 0x87, 0x90, 0x61, 0xbe, 0xdc, 0xfc, 0xbc, 0x95, 0xcf, 0xcd, 0x37, 0x3f, 0x5b, 0xd1,
    0x53, 0x39, 0x84, 0x3c, 0x41, 0xa2, 0x6d, 0x47, 0x14, 0x2a, 0x9e, 0x5d, 0x56, 0xf2, 0xd3, 0xab,
    0x44, 0x11, 0x92, 0xd9, 0x23, 0x20, 0x2e, 0x89, 0xb4, 0x7c, 0xb8, 0x26, 0x77, 0x99, 0xe3, 0xa5,
    0x67, 0x4a, 0xed, 0xde, 0xc5, 0x31, 0xfe, 0x18, 0x0d, 0x63, 0x8c, 0x80, 0xc0, 0xf7, 0x70, 0x07,
];

/// Powers of the generator 3, written out twice so that the sum of two
/// logarithms (at most 508) indexes the table without reduction.
pub const GF256_EXP: [u8; 510] = [
    0x01, 0x03, 0x05, 0x0f, 0x11, 0x33, 0x55, 0xff, 0x1a, 0x2e, 0x72, 0x96, 0xa1, 0xf8, 0x13, 0x35,
    0x5f, 0xe1, 0x38, 0x48, 0xd8, 0x73, 0x95, 0xa4, 0xf7, 0x02, 0x06, 0x0a, 0x1e, 0x22, 0x66, 0xaa,
    0xe5, 0x34, 0x5c, 0xe4, 0x37, 0x59, 0xeb, 0x26, 0x6a, 0xbe, 0xd9, 0x70, 0x90, 0xab, 0xe6, 0x31,
    0x53, 0xf5, 0x04, 0x0c, 0x14, 0x3c, 0x44, 0xcc, 0x4f, 0xd1, 0x68, 0xb8, 0xd3, 0x6e, 0xb2, 0xcd,
    0x4c, 0xd4, 0x67, 0xa9, 0xe0, 0x3b, 0x4d, 0xd7, 0x62, 0xa6, 0xf1, 0x08, 0x18, 0x28, 0x78, 0x88,
    0x83, 0x9e, 0xb9, 0xd0, 0x6b, 0xbd, 0xdc, 0x7f, 0x81, 0x98, 0xb3, 0xce, 0x49, 0xdb, 0x76, 0x9a,
    0xb5, 0xc4, 0x57, 0xf9, 0x10, 0x30, 0x50, 0xf0, 0x0b, 0x1d, 0x27, 0x69, 0xbb, 0xd6, 0x61, 0xa3,
    0xfe, 0x19, 0x2b, 0x7d, 0x87, 0x92, 0xad, 0xec, 0x2f, 0x71, 0x93, 0xae, 0xe9, 0x20, 0x60, 0xa0,
    0xfb, 0x16, 0x3a, 0x4e, 0xd2, 0x6d, 0xb7, 0xc2, 0x5d, 0xe7, 0x32, 0x56, 0xfa, 0x15, 0x3f, 0x41,
    0xc3, 0x5e, 0xe2, 0x3d, 0x47, 0xc9, 0x40, 0xc0, 0x5b, 0xed, 0x2c, 0x74, 0x9c, 0xbf, 0xda, 0x75,
    0x9f, 0xba, 0xd5, 0x64, 0xac, 0xef, 0x2a, 0x7e, 0x82, 0x9d, 0xbc, 0xdf, 0x7a, 0x8e, 0x89, 0x80,
    0x9b, 0xb6, 0xc1, 0x58, 0xe8, 0x23, 0x65, 0xaf, 0xea, 0x25, 0x6f, 0xb1, 0xc8, 0x43, 0xc5, 0x54,
    0xfc, 0x1f, 0x21, 0x63, 0xa5, 0xf4, 0x07, 0x09, 0x1b, 0x2d, 0x77, 0x99, 0xb0, 0xcb, 0x46, 0xca,
    0x45, 0xcf, 0x4a, 0xde, 0x79, 0x8b, 0x86, 0x91, 0xa8, 0xe3, 0x3e, 0x42, 0xc6, 0x51, 0xf3, 0x0e,
    0x12, 0x36, 0x5a, 0xee, 0x29, 0x7b, 0x8d, 0x8c, 0x8f, 0x8a, 0x85, 0x94, 0xa7, 0xf2, 0x0d, 0x17,
    0x39, 0x4b, 0xdd, 0x7c, 0x84, 0x97, 0xa2, 0xfd, 0x1c, 0x24, 0x6c, 0xb4, 0xc7, 0x52, 0xf6, 0x01,
    0x03, 0x05, 0x0f, 0x11, 0x33, 0x55, 0xff, 0x1a, 0x2e, 0x72, 0x96, 0xa1, 0xf8, 0x13, 0x35, 0x5f,
    0xe1, 0x38, 0x48, 0xd8, 0x73, 0x95, 0xa4, 0xf7, 0x02, 0x06, 0x0a, 0x1e, 0x22, 0x66, 0xaa, 0xe5,
    0x34, 0x5c, 0xe4, 0x37, 0x59, 0xeb, 0x26, 0x6a, 0xbe, 0xd9, 0x70, 0x90, 0xab, 0xe6, 0x31, 0x53,
    0xf5, 0x04, 0x0c, 0x14, 0x3c, 0x44, 0xcc, 0x4f, 0xd1, 0x68, 0xb8, 0xd3, 0x6e, 0xb2, 0xcd, 0x4c,
    0xd4, 0x67, 0xa9, 0xe0, 0x3b, 0x4d, 0xd7, 0x62, 0xa6, 0xf1, 0x08, 0x18, 0x28, 0x78, 0x88, 0x83,
    0x9e, 0xb9, 0xd0, 0x6b, 0xbd, 0xdc, 0x7f, 0x81, 0x98, 0xb3, 0xce, 0x49, 0xdb, 0x76, 0x9a, 0xb5,
    0xc4, 0x57, 0xf9, 0x10, 0x30, 0x50, 0xf0, 0x0b, 0x1d, 0x27, 0x69, 0xbb, 0xd6, 0x61, 0xa3, 0xfe,
    0x19, 0x2b, 0x7d, 0x87, 0x92, 0xad, 0xec, 0x2f, 0x71, 0x93, 0xae, 0xe9, 0x20, 0x60, 0xa0, 0xfb,
    0x16, 0x3a, 0x4e, 0xd2, 0x6d, 0xb7, 0xc2, 0x5d, 0xe7, 0x32, 0x56, 0xfa, 0x15, 0x3f, 0x41, 0xc3,
    0x5e, 0xe2, 0x3d, 0x47, 0xc9, 0x40, 0xc0, 0x5b, 0xed, 0x2c, 0x74, 0x9c, 0xbf, 0xda, 0x75, 0x9f,
    0xba, 0xd5, 0x64, 0xac, 0xef, 0x2a, 0x7e, 0x82, 0x9d, 0xbc, 0xdf, 0x7a, 0x8e, 0x89, 0x80, 0x9b,
    0xb6, 0xc1, 0x58, 0xe8, 0x23, 0x65, 0xaf, 0xea, 0x25, 0x6f, 0xb1, 0xc8, 0x43, 0xc5, 0x54, 0xfc,
    0x1f, 0x21, 0x63, 0xa5, 0xf4, 0x07, 0x09, 0x1b, 0x2d, 0x77, 0x99, 0xb0, 0xcb, 0x46, 0xca, 0x45,
    0xcf, 0x4a, 0xde, 0x79, 0x8b, 0x86, 0x91, 0xa8, 0xe3, 0x3e, 0x42, 0xc6, 0x51, 0xf3, 0x0e, 0x12,
    0x36, 0x5a, 0xee, 0x29, 0x7b, 0x8d, 0x8c, 0x8f, 0x8a, 0x85, 0x94, 0xa7, 0xf2, 0x0d, 0x17, 0x39,
    0x4b, 0xdd, 0x7c, 0x84, 0x97, 0xa2, 0xfd, 0x1c, 0x24, 0x6c, 0xb4, 0xc7, 0x52, 0xf6,
];

/// Multiplication by x, reduced modulo x^8 + x^4 + x^3 + x + 1.
pub open spec fn xtime(a: u8) -> u8 {
    if a & 0x80u8 == 0 {
        (a << 1u8) as u8
    } else {
        ((a << 1u8) as u8) ^ 0x1bu8
    }
}

/// Carry-less product of two bytes: the product, over GF(2), of the polynomials
/// whose coefficients are their bits.
pub open spec fn clmul(a: u8, b: u8) -> u16 {
    let w = a as u16;
    (if b & 0x01u8 == 0 { 0u16 } else { w }) ^ (if b & 0x02u8 == 0 { 0u16 } else { w << 1u16 })
        ^ (if b & 0x04u8 == 0 { 0u16 } else { w << 2u16 }) ^ (if b & 0x08u8 == 0 { 0u16 } else {
        w << 3u16
    }) ^ (if b & 0x10u8 == 0 { 0u16 } else { w << 4u16 }) ^ (if b & 0x20u8 == 0 { 0u16 } else {
        w << 5u16
    }) ^ (if b & 0x40u8 == 0 { 0u16 } else { w << 6u16 }) ^ (if b & 0x80u8 == 0 { 0u16 } else {
        w << 7u16
    })
}

/// Reduction of a polynomial of degree below 15 modulo x^8 + x^4 + x^3 + x + 1:
/// each bit `8 + j` is replaced by the residue of x^(8 + j).
pub open spec fn reduce(c: u16) -> u8 {
    (c as u8) ^ (if c & 0x0100u16 == 0 { 0u8 } else { 0x1bu8 }) ^ (if c & 0x0200u16 == 0 { 0u8 } else {
        0x36u8
    }) ^ (if c & 0x0400u16 == 0 { 0u8 } else { 0x6cu8 }) ^ (if c & 0x0800u16 == 0 { 0u8 } else {
        0xd8u8
    }) ^ (if c & 0x1000u16 == 0 { 0u8 } else { 0xabu8 }) ^ (if c & 0x2000u16 == 0 { 0u8 } else {
        0x4du8
    }) ^ (if c & 0x4000u16 == 0 { 0u8 } else { 0x9au8 })
}

/// The field product.
pub open spec fn gf_mul(a: u8, b: u8) -> u8 {
    reduce(clmul(a, b))
}

/// Multiplication by the generator 3 (that is, by x + 1).
pub open spec fn times3(a: u8) -> u8 {
    xtime(a) ^ a
}

/// The `n`-th power of the generator 3.
pub open spec fn gen_pow(n: nat) -> u8
    decreases n,
{
    if n == 0 {
        1
    } else {
        times3(gen_pow((n - 1) as nat))
    }
}

/// The multiplicative inverse of a nonzero element.
pub open spec fn gf_inv(a: u8) -> u8 {
    choose|b: u8| gf_mul(a, b) == 1
}

/// The entries of the exponential table, one period of it.
pub open spec fn exp_entry(i: u8) -> u8 {
    match i {
        0 => 0x01, 1 => 0x03, 2 => 0x05, 3 => 0x0f, 4 => 0x11, 5 => 0x33, 6 => 0x55, 7 => 0xff,
        8 => 0x1a, 9 => 0x2e, 10 => 0x72, 11 => 0x96, 12 => 0xa1, 13 => 0xf8, 14 => 0x13, 15 => 0x35,
        16 => 0x5f, 17 => 0xe1, 18 => 0x38, 19 => 0x48, 20 => 0xd8, 21 => 0x73, 22 => 0x95, 23 => 0xa4,
        24 => 0xf7, 25 => 0x02, 26 => 0x06, 27 => 0x0a, 28 => 0x1e, 29 => 0x22, 30 => 0x66, 31 => 0xaa,
        32 => 0xe5, 33 => 0x34, 34 => 0x5c, 35 => 0xe4, 36 => 0x37, 37 => 0x59, 38 => 0xeb, 39 => 0x26,
        40 => 0x6a, 41 => 0xbe, 42 => 0xd9, 43 => 0x70, 44 => 0x90, 45 => 0xab, 46 => 0xe6, 47 => 0x31,
        48 => 0x53, 49 => 0xf5, 50 => 0x04, 51 => 0x0c, 52 => 0x14, 53 => 0x3c, 54 => 0x44, 55 => 0xcc,
        56 => 0x4f, 57 => 0xd1, 58 => 0x68, 59 => 0xb8, 60 => 0xd3, 61 => 0x6e, 62 => 0xb2, 63 => 0xcd,
        64 => 0x4c, 65 => 0xd4, 66 => 0x67, 67 => 0xa9, 68 => 0xe0, 69 => 0x3b, 70 => 0x4d, 71 => 0xd7,
        72 => 0x62, 73 => 0xa6, 74 => 0xf1, 75 => 0x08, 76 => 0x18, 77 => 0x28, 78 => 0x78, 79 => 0x88,
        80 => 0x83, 81 => 0x9e, 82 => 0xb9, 83 => 0xd0, 84 => 0x6b, 85 => 0xbd, 86 => 0xdc, 87 => 0x7f,
        88 => 0x81, 89 => 0x98, 90 => 0xb3, 91 => 0xce, 92 => 0x49, 93 => 0xdb, 94 => 0x76, 95 => 0x9a,
        96 => 0xb5, 97 => 0xc4, 98 => 0x57, 99 => 0xf9, 100 => 0x10, 101 => 0x30, 102 => 0x50, 103 => 0xf0,
        104 => 0x0b, 105 => 0x1d, 106 => 0x27, 107 => 0x69, 108 => 0xbb, 109 => 0xd6, 110 => 0x61, 111 => 0xa3,
        112 => 0xfe, 113 => 0x19, 114 => 0x2b, 115 => 0x7d, 116 => 0x87, 117 => 0x92, 118 => 0xad, 119 => 0xec,
        120 => 0x2f, 121 => 0x71, 122 => 0x93, 123 => 0xae, 124 => 0xe9, 125 => 0x20, 126 => 0x60, 127 => 0xa0,
        128 => 0xfb, 129 => 0x16, 130 => 0x3a, 131 => 0x4e, 132 => 0xd2, 133 => 0x6d, 134 => 0xb7, 135 => 0xc2,
        136 => 0x5d, 137 => 0xe7, 138 => 0x32, 139 => 0x56, 140 => 0xfa, 141 => 0x15, 142 => 0x3f, 143 => 0x41,
        144 => 0xc3, 145 => 0x5e, 146 => 0xe2, 147 => 0x3d, 148 => 0x47, 149 => 0xc9, 150 => 0x40, 151 => 0xc0,
        152 => 0x5b, 153 => 0xed, 154 => 0x2c, 155 => 0x74, 156 => 0x9c, 157 => 0xbf, 158 => 0xda, 159 => 0x75,
        160 => 0x9f, 161 => 0xba, 162 => 0xd5, 163 => 0x64, 164 => 0xac, 165 => 0xef, 166 => 0x2a, 167 => 0x7e,
        168 => 0x82, 169 => 0x9d, 170 => 0xbc, 171 => 0xdf, 172 => 0x7a, 173 => 0x8e, 174 => 0x89, 175 => 0x80,
        176 => 0x9b, 177 => 0xb6, 178 => 0xc1, 179 => 0x58, 180 => 0xe8, 181 => 0x23, 182 => 0x65, 183 => 0xaf,
        184 => 0xea, 185 => 0x25, 186 => 0x6f, 187 => 0xb1, 188 => 0xc8, 189 => 0x43, 190 => 0xc5, 191 => 0x54,
        192 => 0xfc, 193 => 0x1f, 194 => 0x21, 195 => 0x63, 196 => 0xa5, 197 => 0xf4, 198 => 0x07, 199 => 0x09,
        200 => 0x1b, 201 => 0x2d, 202 => 0x77, 203 => 0x99, 204 => 0xb0, 205 => 0xcb, 206 => 0x46, 207 => 0xca,
        208 => 0x45, 209 => 0xcf, 210 => 0x4a, 211 => 0xde, 212 => 0x79, 213 => 0x8b, 214 => 0x86, 215 => 0x91,
        216 => 0xa8, 217 => 0xe3, 218 => 0x3e, 219 => 0x42, 220 => 0xc6, 221 => 0x51, 222 => 0xf3, 223 => 0x0e,
        224 => 0x12, 225 => 0x36, 226 => 0x5a, 227 => 0xee, 228 => 0x29, 229 => 0x7b, 230 => 0x8d, 231 => 0x8c,
        232 => 0x8f, 233 => 0x8a, 234 => 0x85, 235 => 0x94, 236 => 0xa7, 237 => 0xf2, 238 => 0x0d, 239 => 0x17,
        240 => 0x39, 241 => 0x4b, 242 => 0xdd, 243 => 0x7c, 244 => 0x84, 245 => 0x97, 246 => 0xa2, 247 => 0xfd,
        248 => 0x1c, 249 => 0x24, 250 => 0x6c, 251 => 0xb4, 252 => 0xc7, 253 => 0x52, _ => 0xf6,
    }
}

/// The entries of the logarithm table.
pub open spec fn log_entry(a: u8) -> u8 {
    match a {
        0 => 0xff, 1 => 0x00, 2 => 0x19, 3 => 0x01, 4 => 0x32, 5 => 0x02, 6 => 0x1a, 7 => 0xc6,
        8 => 0x4b, 9 => 0xc7, 10 => 0x1b, 11 => 0x68, 12 => 0x33, 13 => 0xee, 14 => 0xdf, 15 => 0x03,
        16 => 0x64, 17 => 0x04, 18 => 0xe0, 19 => 0x0e, 20 => 0x34, 21 => 0x8d, 22 => 0x81, 23 => 0xef,
        24 => 0x4c, 25 => 0x71, 26 => 0x08, 27 => 0xc8, 28 => 0xf8, 29 => 0x69, 30 => 0x1c, 31 => 0xc1,
        32 => 0x7d, 33 => 0xc2, 34 => 0x1d, 35 => 0xb5, 36 => 0xf9, 37 => 0xb9, 38 => 0x27, 39 => 0x6a,
        40 => 0x4d, 41 => 0xe4, 42 => 0xa6, 43 => 0x72, 44 => 0x9a, 45 => 0xc9, 46 => 0x09, 47 => 0x78,
        48 => 0x65, 49 => 0x2f, 50 => 0x8a, 51 => 0x05, 52 => 0x21, 53 => 0x0f, 54 => 0xe1, 55 => 0x24,
        56 => 0x12, 57 => 0xf0, 58 => 0x82, 59 => 0x45, 60 => 0x35, 61 => 0x93, 62 => 0xda, 63 => 0x8e,
        64 => 0x96, 65 => 0x8f, 66 => 0xdb, 67 => 0xbd, 68 => 0x36, 69 => 0xd0, 70 => 0xce, 71 => 0x94,
        72 => 0x13, 73 => 0x5c, 74 => 0xd2, 75 => 0xf1, 76 => 0x40, 77 => 0x46, 78 => 0x83, 79 => 0x38,
        80 => 0x66, 81 => 0xdd, 82 => 0xfd, 83 => 0x30, 84 => 0xbf, 85 => 0x06, 86 => 0x8b, 87 => 0x62,
        88 => 0xb3, 89 => 0x25, 90 => 0xe2, 91 => 0x98, 92 => 0x22, 93 => 0x88, 94 => 0x91, 95 => 0x10,
        96 => 0x7e, 97 => 0x6e, 98 => 0x48, 99 => 0xc3, 100 => 0xa3, 101 => 0xb6, 102 => 0x1e, 103 => 0x42,
        104 => 0x3a, 105 => 0x6b, 106 => 0x28, 107 => 0x54, 108 => 0xfa, 109 => 0x85, 110 => 0x3d, 111 => 0xba,
        112 => 0x2b, 113 => 0x79, 114 => 0x0a, 115 => 0x15, 116 => 0x9b, 117 => 0x9f, 118 => 0x5e, 119 => 0xca,
        120 => 0x4e, 121 => 0xd4, 122 => 0xac, 123 => 0xe5, 124 => 0xf3, 125 => 0x73, 126 => 0xa7, 127 => 0x57,
        128 => 0xaf, 129 => 0x58, 130 => 0xa8, 131 => 0x50, 132 => 0xf4, 133 => 0xea, 134 => 0xd6, 135 => 0x74,
        136 => 0x4f, 137 => 0xae, 138 => 0xe9, 139 => 0xd5, 140 => 0xe7, 141 => 0xe6, 142 => 0xad, 143 => 0xe8,
        144 => 0x2c, 145 => 0xd7, 146 => 0x75, 147 => 0x7a, 148 => 0xeb, 149 => 0x16, 150 => 0x0b, 151 => 0xf5,
        152 => 0x59, 153 => 0xcb, 154 => 0x5f, 155 => 0xb0, 156 => 0x9c, 157 => 0xa9, 158 => 0x51, 159 => 0xa0,
        160 => 0x7f, 161 => 0x0c, 162 => 0xf6, 163 => 0x6f, 164 => 0x17, 165 => 0xc4, 166 => 0x49, 167 => 0xec,
        168 => 0xd8, 169 => 0x43, 170 => 0x1f, 171 => 0x2d, 172 => 0xa4, 173 => 0x76, 174 => 0x7b, 175 => 0xb7,
        176 => 0xcc, 177 => 0xbb, 178 => 0x3e, 179 => 0x5a, 180 => 0xfb, 181 => 0x60, 182 => 0xb1, 183 => 0x86,
        184 => 0x3b, 185 => 0x52, 186 => 0xa1, 187 => 0x6c, 188 => 0xaa, 189 => 0x55, 190 => 0x29, 191 => 0x9d,
        192 => 0x97, 193 => 0xb2, 194 => 0x87, 195 => 0x90, 196 => 0x61, 197 => 0xbe, 198 => 0xdc, 199 => 0xfc,
        200 => 0xbc, 201 => 0x95, 202 => 0xcf, 203 => 0xcd, 204 => 0x37, 205 => 0x3f, 206 => 0x5b, 207 => 0xd1,
        208 => 0x53, 209 => 0x39, 210 => 0x84, 211 => 0x3c, 212 => 0x41, 213 => 0xa2, 214 => 0x6d, 215 => 0x47,
        216 => 0x14, 217 => 0x2a, 218 => 0x9e, 219 => 0x5d, 220 => 0x56, 221 => 0xf2, 222 => 0xd3, 223 => 0xab,
        224 => 0x44, 225 => 0x11, 226 => 0x92, 227 => 0xd9, 228 => 0x23, 229 => 0x20, 230 => 0x2e, 231 => 0x89,
        232 => 0xb4, 233 => 0x7c, 234 => 0xb8, 235 => 0x26, 236 => 0x77, 237 => 0x99, 238 => 0xe3, 239 => 0xa5,
        240 => 0x67, 241 => 0x4a, 242 => 0xed, 243 => 0xde, 244 => 0xc5, 245 => 0x31, 246 => 0xfe, 247 => 0x18,
        248 => 0x0d, 249 => 0x63, 250 => 0x8c, 251 => 0x80, 252 => 0xc0, 253 => 0xf7, 254 => 0x70, _ => 0x07,
    }
}
// ---------------------------------------------------------------------------
// Facts about the tables and the bit-level product
// ---------------------------------------------------------------------------

/// Consecutive table entries differ by a factor of 3.
#[verifier::rlimit(100)]
proof fn lemma_exp_steps_low()
    by (bit_vector)
    ensures
        exp_entry(0) == 1,
        forall|i: u8| i < 127 ==> #[trigger] exp_entry((i + 1) as u8) == times3(exp_entry(i)),
{
}

/// Consecutive table entries differ by a factor of 3, and the period is 255.
#[verifier::rlimit(100)]
proof fn lemma_exp_steps_high()
    by (bit_vector)
    ensures
        forall|i: u8| 127 <= i < 254 ==> #[trigger] exp_entry((i + 1) as u8) == times3(exp_entry(i)),
        times3(exp_entry(254)) == 1,
{
}

/// The logarithm table inverts the exponential table on nonzero bytes.
#[verifier::rlimit(100)]
proof fn lemma_log_exp_low()
    by (bit_vector)
    ensures
        forall|a: u8| 1 <= a < 128 ==> #[trigger] log_entry(a) < 255 && exp_entry(log_entry(a)) == a,
{
}

/// The logarithm table inverts the exponential table on nonzero bytes.
#[verifier::rlimit(100)]
proof fn lemma_log_exp_high()
    by (bit_vector)
    ensures
        forall|a: u8| 128 <= a ==> #[trigger] log_entry(a) < 255 && exp_entry(log_entry(a)) == a,
{
}

/// The executable tables hold the entries above.
proof fn lemma_tables_match()
    ensures
        forall|i: int| 0 <= i < 255 ==> #[trigger] GF256_EXP@[i] == exp_entry(i as u8),
        forall|i: int| 255 <= i < 510 ==> #[trigger] GF256_EXP@[i] == exp_entry((i - 255) as u8),
        forall|a: int| 0 <= a < 256 ==> #[trigger] GF256_LOG@[a] == log_entry(a as u8),
{
}

pub proof fn lemma_gf_mul_units(a: u8)
    by (bit_vector)
    ensures
        gf_mul(a, 1) == a,
        gf_mul(1, a) == a,
        gf_mul(a, 0) == 0,
        gf_mul(0, a) == 0,
        gf_mul(a, 3) == times3(a),
{
}

pub proof fn lemma_gf_mul_commutative(a: u8, b: u8)
    by (bit_vector)
    ensures
        gf_mul(a, b) == gf_mul(b, a),
{
}

proof fn lemma_clmul_linear(a: u8, b: u8, c: u8)
    by (bit_vector)
    ensures
        clmul(a, b ^ c) == clmul(a, b) ^ clmul(a, c),
{
}

proof fn lemma_reduce_linear(x: u16, y: u16)
    by (bit_vector)
    requires
        x < 0x8000,
        y < 0x8000,
    ensures
        reduce(x ^ y) == reduce(x) ^ reduce(y),
{
}

proof fn lemma_clmul_bound(a: u8, b: u8)
    by (bit_vector)
    ensures
        clmul(a, b) < 0x8000,
{
}

pub proof fn lemma_gf_mul_distributive(a: u8, b: u8, c: u8)
    ensures
        gf_mul(a, b ^ c) == gf_mul(a, b) ^ gf_mul(a, c),
{
    lemma_clmul_linear(a, b, c);
    lemma_clmul_bound(a, b);
    lemma_clmul_bound(a, c);
    lemma_reduce_linear(clmul(a, b), clmul(a, c));
}

/// Multiplying by 3 commutes with multiplying by any other factor.
#[verifier::rlimit(100)]
proof fn lemma_times3_shift(a: u8, b: u8, ab: u8, b3: u8)
    by (bit_vector)
    requires
        ab == gf_mul(a, b),
        b3 == gf_mul(b, 3),
    ensures
        gf_mul(ab, 3) == gf_mul(a, b3),
{
}

/// The table entry at `i` is the `i`-th power of the generator.
proof fn lemma_exp_is_pow(i: nat)
    requires
        i < 255,
    ensures
        exp_entry(i as u8) == gen_pow(i),
    decreases i,
{
    lemma_exp_steps_low();
    lemma_exp_steps_high();
    if i > 0 {
        lemma_exp_is_pow((i - 1) as nat);
        let j = (i - 1) as u8;
        assert(exp_entry((j + 1) as u8) == times3(exp_entry(j)));
    }
}

/// Powers of the generator multiply by adding exponents.
pub proof fn lemma_pow_add(m: nat, n: nat)
    ensures
        gf_mul(gen_pow(m), gen_pow(n)) == gen_pow(m + n),
    decreases n,
{
    let p = gen_pow(m);
    if n == 0 {
        lemma_gf_mul_units(p);
    } else {
        let q = gen_pow((n - 1) as nat);
        lemma_pow_add(m, (n - 1) as nat);
        lemma_times3_shift(p, q, gf_mul(p, q), gf_mul(q, 3));
        lemma_gf_mul_units(q);
        lemma_gf_mul_units(gf_mul(p, q));
        assert(gen_pow(m + n) == times3(gen_pow((m + n - 1) as nat)));
    }
}

proof fn lemma_pow_period(n: nat)
    ensures
        gen_pow(n + 255) == gen_pow(n),
        gen_pow(255) == 1,
{
    lemma_exp_steps_high();
    lemma_exp_is_pow(254);
    assert(gen_pow(255) == times3(gen_pow(254)));
    lemma_pow_add(n, 255);
    lemma_gf_mul_units(gen_pow(n));
}

/// Every nonzero byte is the power of the generator that the logarithm table names.
proof fn lemma_log_is_pow(a: u8)
    requires
        a != 0,
    ensures
        GF256_LOG@[a as int] < 255,
        gen_pow(GF256_LOG@[a as int] as nat) == a,
{
    lemma_tables_match();
    lemma_log_exp_low();
    lemma_log_exp_high();
    lemma_exp_is_pow(log_entry(a) as nat);
}

/// The doubled exponential table holds the powers of the generator.
proof fn lemma_exp_table_pow(i: int)
    requires
        0 <= i < 510,
    ensures
        GF256_EXP@[i] == gen_pow(i as nat),
{
    lemma_tables_match();
    if i < 255 {
        lemma_exp_is_pow(i as nat);
    } else {
        lemma_exp_is_pow((i - 255) as nat);
        lemma_pow_period((i - 255) as nat);
    }
}

pub proof fn lemma_gf_mul_associative(a: u8, b: u8, c: u8)
    ensures
        gf_mul(gf_mul(a, b), c) == gf_mul(a, gf_mul(b, c)),
{
    lemma_gf_mul_units(a);
    lemma_gf_mul_units(b);
    lemma_gf_mul_units(c);
    lemma_gf_mul_units(gf_mul(a, b));
    lemma_gf_mul_units(gf_mul(b, c));
    if a != 0 && b != 0 && c != 0 {
        lemma_log_is_pow(a);
        lemma_log_is_pow(b);
        lemma_log_is_pow(c);
        let la = GF256_LOG@[a as int] as nat;
        let lb = GF256_LOG@[b as int] as nat;
        let lc = GF256_LOG@[c as int] as nat;
        lemma_pow_add(la, lb);
        lemma_pow_add(lb, lc);
        lemma_pow_add(la + lb, lc);
        lemma_pow_add(la, lb + lc);
        assert(la + lb + lc == la + (lb + lc));
    }
}


/// Inverses are unique.
pub proof fn lemma_inverse_unique(a: u8, b: u8, c: u8)
    requires
        gf_mul(a, b) == 1,
        gf_mul(a, c) == 1,
    ensures
        b == c,
{
    lemma_gf_mul_associative(b, a, c);
    lemma_gf_mul_commutative(b, a);
    lemma_gf_mul_units(b);
    lemma_gf_mul_units(c);
}

/// The table lookup that computes a product of nonzero elements is correct.
proof fn lemma_table_product(a: u8, b: u8)
    requires
        a != 0,
        b != 0,
    ensures
        GF256_LOG@[a as int] < 255,
        GF256_LOG@[b as int] < 255,
        GF256_EXP@[GF256_LOG@[a as int] + GF256_LOG@[b as int]] == gf_mul(a, b),
{
    lemma_log_is_pow(a);
    lemma_log_is_pow(b);
    let la = GF256_LOG@[a as int] as nat;
    let lb = GF256_LOG@[b as int] as nat;
    lemma_exp_table_pow((la + lb) as int);
    lemma_pow_add(la, lb);
}

/// The table lookup that computes an inverse is correct.
proof fn lemma_table_inverse(a: u8)
    requires
        a != 0,
    ensures
        GF256_LOG@[a as int] < 255,
        gf_mul(a, GF256_EXP@[255 - GF256_LOG@[a as int]]) == 1,
        GF256_EXP@[255 - GF256_LOG@[a as int]] == gf_inv(a),
        gf_inv(a) != 0,
{
    lemma_log_is_pow(a);
    let la = GF256_LOG@[a as int] as nat;
    lemma_exp_table_pow(255 - la as int);
    lemma_pow_add(la, (255 - la) as nat);
    lemma_pow_period(0);
    let r = GF256_EXP@[255 - la];
    assert(gf_mul(a, r) == 1);
    let i = gf_inv(a);
    assert(gf_mul(a, i) == 1);
    lemma_inverse_unique(a, r, i);
    lemma_gf_mul_units(a);
}

/// The field laws: addition (XOR) is commutative and associative with identity 0,
/// every element is its own additive inverse, multiplication is commutative and
/// associative, and it distributes over addition.
pub proof fn lemma_field_laws(a: u8, b: u8, c: u8)
    ensures
        a ^ b == b ^ a,
        (a ^ b) ^ c == a ^ (b ^ c),
        a ^ 0 == a,
        a ^ a == 0,
        gf_mul(a, b ^ c) == gf_mul(a, b) ^ gf_mul(a, c),
        gf_mul(a, b) == gf_mul(b, a),
        gf_mul(gf_mul(a, b), c) == gf_mul(a, gf_mul(b, c)),
{
    assert(a ^ b == b ^ a && (a ^ b) ^ c == a ^ (b ^ c) && a ^ 0 == a && a ^ a == 0) by (bit_vector);
    lemma_gf_mul_distributive(a, b, c);
    lemma_gf_mul_commutative(a, b);
    lemma_gf_mul_associative(a, b, c);
}

/// Inversion on the nonzero elements: `a * inverse(a) = 1`, the inverse is
/// nonzero, and inverting twice gives `a` back.
pub proof fn lemma_inverse_laws(a: u8)
    requires
        a != 0,
    ensures
        gf_mul(a, gf_inv(a)) == 1,
        gf_inv(a) != 0,
        gf_inv(gf_inv(a)) == a,
{
    lemma_table_inverse(a);
    let i = gf_inv(a);
    lemma_table_inverse(i);
    lemma_gf_mul_commutative(a, i);
    lemma_inverse_unique(i, gf_inv(i), a);
}

/// Inversion is a bijection on the 255 nonzero elements: it is injective there,
/// and every nonzero element is the inverse of a nonzero element.
pub proof fn lemma_inverse_bijective(a: u8, b: u8)
    requires
        a != 0,
        b != 0,
    ensures
        gf_inv(a) == gf_inv(b) ==> a == b,
        exists|c: u8| c != 0 && gf_inv(c) == b,
{
    lemma_inverse_laws(a);
    lemma_inverse_laws(b);
    let c = gf_inv(b);
    assert(c != 0 && gf_inv(c) == b);
}

/// An element of GF(256), stored as its byte.
#[derive(Debug, Clone, Copy, Default, PartialEq, Eq, Structural, PartialOrd, Ord, Hash)]
pub struct GF256(pub u8);

impl GF256 {
    /// The zero element, the additive identity.
    pub fn zero() -> (r: GF256)
        ensures
            r.0 == 0,
    {
        GF256(0)
    }

    /// The one element, the multiplicative identity.
    pub fn one() -> (r: GF256)
        ensures
            r.0 == 1,
    {
        GF256(1)
    }

    /// Wraps a byte as a field element.
    pub fn new(value: u8) -> (r: GF256)
        ensures
            r.0 == value,
    {
        GF256(value)
    }

    /// The byte of this element.
    pub fn value(self) -> (r: u8)
        ensures
            r == self.0,
    {
        self.0
    }

    /// The multiplicative inverse, read from the tables as `exp[255 - log[a]]`.
    pub fn inverse(self) -> (r: GF256)
        requires
            self.0 != 0,
        ensures
            r.0 == gf_inv(self.0),
            gf_mul(self.0, r.0) == 1,
            r.0 != 0,
    {
        proof {
            lemma_table_inverse(self.0);
        }
        let log_val = GF256_LOG[self.0 as usize] as usize;
        GF256(GF256_EXP[255 - log_val])
    }

    /// The multiplicative inverse, or `None` for the zero element.
    pub fn checked_inverse(self) -> (r: Option<GF256>)
        ensures
            self.0 == 0 ==> r is None,
            self.0 != 0 ==> r == Some(GF256(gf_inv(self.0))),
    {
        if self.0 == 0 {
            None
        } else {
            Some(self.inverse())
        }
    }

    /// The quotient `self / other`, or `None` when `other` is zero.
    pub fn checked_div(self, other: GF256) -> (r: Option<GF256>)
        ensures
            other.0 == 0 ==> r is None,
            other.0 != 0 ==> r == Some(GF256(gf_mul(self.0, gf_inv(other.0)))),
    {
        if other.0 == 0 {
            None
        } else {
            Some(self / other)
        }
    }

    pub fn is_zero(self) -> (r: bool)
        ensures
            r == (self.0 == 0),
    {
        self.0 == 0
    }

    pub fn is_one(self) -> (r: bool)
        ensures
            r == (self.0 == 1),
    {
        self.0 == 1
    }
}

impl From<u8> for GF256 {
    fn from(value: u8) -> (r: GF256) {
        GF256(value)
    }
}

impl vstd::std_specs::convert::FromSpecImpl<u8> for GF256 {
    open spec fn obeys_from_spec() -> bool {
        true
    }

    open spec fn from_spec(v: u8) -> GF256 {
        GF256(v)
    }
}

impl From<GF256> for u8 {
    fn from(gf: GF256) -> (r: u8) {
        gf.0
    }
}

impl vstd::std_specs::convert::FromSpecImpl<GF256> for u8 {
    open spec fn obeys_from_spec() -> bool {
        true
    }

    open spec fn from_spec(v: GF256) -> u8 {
        v.0
    }
}

/// Addition is XOR.
impl core::ops::Add for GF256 {
    type Output = GF256;

    fn add(self, other: GF256) -> (r: GF256) {
        GF256(self.0 ^ other.0)
    }
}

impl vstd::std_specs::ops::AddSpecImpl for GF256 {
    open spec fn obeys_add_spec() -> bool {
        true
    }

    open spec fn add_req(self, other: GF256) -> bool {
        true
    }

    open spec fn add_spec(self, other: GF256) -> GF256 {
        GF256(self.0 ^ other.0)
    }
}

/// Subtraction equals addition in characteristic 2.
impl core::ops::Sub for GF256 {
    type Output = GF256;

    fn sub(self, other: GF256) -> (r: GF256) {
        GF256(self.0 ^ other.0)
    }
}

impl vstd::std_specs::ops::SubSpecImpl for GF256 {
    open spec fn obeys_sub_spec() -> bool {
        true
    }

    open spec fn sub_req(self, other: GF256) -> bool {
        true
    }

    open spec fn sub_spec(self, other: GF256) -> GF256 {
        GF256(self.0 ^ other.0)
    }
}

/// Multiplication through the tables: `exp[log[a] + log[b]]`, or 0 when a factor is 0.
impl core::ops::Mul for GF256 {
    type Output = GF256;

    fn mul(self, other: GF256) -> (r: GF256) {
        if self.0 == 0 || other.0 == 0 {
            proof {
                lemma_gf_mul_units(self.0);
                lemma_gf_mul_units(other.0);
            }
            GF256(0)
        } else {
            proof {
                lemma_table_product(self.0, other.0);
            }
            let x = GF256_LOG[self.0 as usize] as usize;
            let y = GF256_LOG[other.0 as usize] as usize;
            GF256(GF256_EXP[x + y])
        }
    }
}

impl vstd::std_specs::ops::MulSpecImpl for GF256 {
    open spec fn obeys_mul_spec() -> bool {
        true
    }

    open spec fn mul_req(self, other: GF256) -> bool {
        true
    }

    open spec fn mul_spec(self, other: GF256) -> GF256 {
        GF256(gf_mul(self.0, other.0))
    }
}

/// Division multiplies by the inverse; the divisor must be nonzero.
impl core::ops::Div for GF256 {
    type Output = GF256;

    fn div(self, other: GF256) -> (r: GF256) {
        self * other.inverse()
    }
}

impl vstd::std_specs::ops::DivSpecImpl for GF256 {
    open spec fn obeys_div_spec() -> bool {
        true
    }

    open spec fn div_req(self, other: GF256) -> bool {
        other.0 != 0
    }

    open spec fn div_spec(self, other: GF256) -> GF256 {
        GF256(gf_mul(self.0, gf_inv(other.0)))
    }
}

} // verus!
