//! The AES forward and inverse S-boxes.

use vstd::prelude::*;

verus! {

/// The AES forward S-box as a function.
pub open spec fn sbox_spec(x: u8) -> u8 {
    match x {
        0u8 => 0x63,
        1u8 => 0x7c,
        2u8 => 0x77,
        3u8 => 0x7b,
        4u8 => 0xf2,
        5u8 => 0x6b,
        6u8 => 0x6f,
        7u8 => 0xc5,
        8u8 => 0x30,
        9u8 => 0x01,
        10u8 => 0x67,
        11u8 => 0x2b,
        12u8 => 0xfe,
        13u8 => 0xd7,
        14u8 => 0xab,
        15u8 => 0x76,
        16u8 => 0xca,
        17u8 => 0x82,
        18u8 => 0xc9,
        19u8 => 0x7d,
        20u8 => 0xfa,
        21u8 => 0x59,
        22u8 => 0x47,
        23u8 => 0xf0,
        24u8 => 0xad,
        25u8 => 0xd4,
        26u8 => 0xa2,
        27u8 => 0xaf,
        28u8 => 0x9c,
        29u8 => 0xa4,
        30u8 => 0x72,
        31u8 => 0xc0,
        32u8 => 0xb7,
        33u8 => 0xfd,
        34u8 => 0x93,
        35u8 => 0x26,
        36u8 => 0x36,
        37u8 => 0x3f,
        38u8 => 0xf7,
        39u8 => 0xcc,
        40u8 => 0x34,
        41u8 => 0xa5,
        42u8 => 0xe5,
        43u8 => 0xf1,
        44u8 => 0x71,
        45u8 => 0xd8,
        46u8 => 0x31,
        47u8 => 0x15,
        48u8 => 0x04,
        49u8 => 0xc7,
        50u8 => 0x23,
        51u8 => 0xc3,
        52u8 => 0x18,
        53u8 => 0x96,
        54u8 => 0x05,
        55u8 => 0x9a,
        56u8 => 0x07,
        57u8 => 0x12,
        58u8 => 0x80,
        59u8 => 0xe2,
        60u8 => 0xeb,
        61u8 => 0x27,
        62u8 => 0xb2,
        63u8 => 0x75,
        64u8 => 0x09,
        65u8 => 0x83,
        66u8 => 0x2c,
        67u8 => 0x1a,
        68u8 => 0x1b,
        69u8 => 0x6e,
        70u8 => 0x5a,
        71u8 => 0xa0,
        72u8 => 0x52,
        73u8 => 0x3b,
        74u8 => 0xd6,
        75u8 => 0xb3,
        76u8 => 0x29,
        77u8 => 0xe3,
        78u8 => 0x2f,
        79u8 => 0x84,
        80u8 => 0x53,
        81u8 => 0xd1,
        82u8 => 0x00,
        83u8 => 0xed,
        84u8 => 0x20,
        85u8 => 0xfc,
        86u8 => 0xb1,
        87u8 => 0x5b,
        88u8 => 0x6a,
        89u8 => 0xcb,
        90u8 => 0xbe,
        91u8 => 0x39,
        92u8 => 0x4a,
        93u8 => 0x4c,
        94u8 => 0x58,
        95u8 => 0xcf,
        96u8 => 0xd0,
        97u8 => 0xef,
        98u8 => 0xaa,
        99u8 => 0xfb,
        100u8 => 0x43,
        101u8 => 0x4d,
        102u8 => 0x33,
        103u8 => 0x85,
        104u8 => 0x45,
        105u8 => 0xf9,
        106u8 => 0x02,
        107u8 => 0x7f,
        108u8 => 0x50,
        109u8 => 0x3c,
        110u8 => 0x9f,
        111u8 => 0xa8,
        112u8 => 0x51,
        113u8 => 0xa3,
        114u8 => 0x40,
        115u8 => 0x8f,
        116u8 => 0x92,
        117u8 => 0x9d,
        118u8 => 0x38,
        119u8 => 0xf5,
        120u8 => 0xbc,
        121u8 => 0xb6,
        122u8 => 0xda,
        123u8 => 0x21,
        124u8 => 0x10,
        125u8 => 0xff,
        126u8 => 0xf3,
        127u8 => 0xd2,
        128u8 => 0xcd,
        129u8 => 0x0c,
        130u8 => 0x13,
        131u8 => 0xec,
        132u8 => 0x5f,
        133u8 => 0x97,
        134u8 => 0x44,
        135u8 => 0x17,
        136u8 => 0xc4,
        137u8 => 0xa7,
        138u8 => 0x7e,
        139u8 => 0x3d,
        140u8 => 0x64,
        141u8 => 0x5d,
        142u8 => 0x19,
        143u8 => 0x73,
        144u8 => 0x60,
        145u8 => 0x81,
        146u8 => 0x4f,
        147u8 => 0xdc,
        148u8 => 0x22,
        149u8 => 0x2a,
        150u8 => 0x90,
        151u8 => 0x88,
        152u8 => 0x46,
        153u8 => 0xee,
        154u8 => 0xb8,
        155u8 => 0x14,
        156u8 => 0xde,
        157u8 => 0x5e,
        158u8 => 0x0b,
        159u8 => 0xdb,
        160u8 => 0xe0,
        161u8 => 0x32,
        162u8 => 0x3a,
        163u8 => 0x0a,
        164u8 => 0x49,
        165u8 => 0x06,
        166u8 => 0x24,
        167u8 => 0x5c,
        168u8 => 0xc2,
        169u8 => 0xd3,
        170u8 => 0xac,
        171u8 => 0x62,
        172u8 => 0x91,
        173u8 => 0x95,
        174u8 => 0xe4,
        175u8 => 0x79,
        176u8 => 0xe7,
        177u8 => 0xc8,
        178u8 => 0x37,
        179u8 => 0x6d,
        180u8 => 0x8d,
        181u8 => 0xd5,
        182u8 => 0x4e,
        183u8 => 0xa9,
        184u8 => 0x6c,
        185u8 => 0x56,
        186u8 => 0xf4,
        187u8 => 0xea,
        188u8 => 0x65,
        189u8 => 0x7a,
        190u8 => 0xae,
        191u8 => 0x08,
        192u8 => 0xba,
        193u8 => 0x78,
        194u8 => 0x25,
        195u8 => 0x2e,
        196u8 => 0x1c,
        197u8 => 0xa6,
        198u8 => 0xb4,
        199u8 => 0xc6,
        200u8 => 0xe8,
        201u8 => 0xdd,
        202u8 => 0x74,
        203u8 => 0x1f,
        204u8 => 0x4b,
        205u8 => 0xbd,
        206u8 => 0x8b,
        207u8 => 0x8a,
        208u8 => 0x70,
        209u8 => 0x3e,
        210u8 => 0xb5,
        211u8 => 0x66,
        212u8 => 0x48,
        213u8 => 0x03,
        214u8 => 0xf6,
        215u8 => 0x0e,
        216u8 => 0x61,
        217u8 => 0x35,
        218u8 => 0x57,
        219u8 => 0xb9,
        220u8 => 0x86,
        221u8 => 0xc1,
        222u8 => 0x1d,
        223u8 => 0x9e,
        224u8 => 0xe1,
        225u8 => 0xf8,
        226u8 => 0x98,
        227u8 => 0x11,
        228u8 => 0x69,
        229u8 => 0xd9,
        230u8 => 0x8e,
        231u8 => 0x94,
        232u8 => 0x9b,
        233u8 => 0x1e,
        234u8 => 0x87,
        235u8 => 0xe9,
        236u8 => 0xce,
        237u8 => 0x55,
        238u8 => 0x28,
        239u8 => 0xdf,
        240u8 => 0x8c,
        241u8 => 0xa1,
        242u8 => 0x89,
        243u8 => 0x0d,
        244u8 => 0xbf,
        245u8 => 0xe6,
        246u8 => 0x42,
        247u8 => 0x68,
        248u8 => 0x41,
        249u8 => 0x99,
        250u8 => 0x2d,
        251u8 => 0x0f,
        252u8 => 0xb0,
        253u8 => 0x54,
        254u8 => 0xbb,
        _ => 0x16,
    }
}

/// The AES inverse S-box as a function.
pub open spec fn inv_sbox_spec(x: u8) -> u8 {
    match x {
        0u8 => 0x52,
        1u8 => 0x09,
        2u8 => 0x6a,
        3u8 => 0xd5,
        4u8 => 0x30,
        5u8 => 0x36,
        6u8 => 0xa5,
        7u8 => 0x38,
        8u8 => 0xbf,
        9u8 => 0x40,
        10u8 => 0xa3,
        11u8 => 0x9e,
        12u8 => 0x81,
        13u8 => 0xf3,
        14u8 => 0xd7,
        15u8 => 0xfb,
        16u8 => 0x7c,
        17u8 => 0xe3,
        18u8 => 0x39,
        19u8 => 0x82,
        20u8 => 0x9b,
        21u8 => 0x2f,
        22u8 => 0xff,
        23u8 => 0x87,
        24u8 => 0x34,
        25u8 => 0x8e,
        26u8 => 0x43,
        27u8 => 0x44,
        28u8 => 0xc4,
        29u8 => 0xde,
        30u8 => 0xe9,
        31u8 => 0xcb,
        32u8 => 0x54,
        33u8 => 0x7b,
        34u8 => 0x94,
        35u8 => 0x32,
        36u8 => 0xa6,
        37u8 => 0xc2,
        38u8 => 0x23,
        39u8 => 0x3d,
        40u8 => 0xee,
        41u8 => 0x4c,
        42u8 => 0x95,
        43u8 => 0x0b,
        44u8 => 0x42,
        45u8 => 0xfa,
        46u8 => 0xc3,
        47u8 => 0x4e,
        48u8 => 0x08,
        49u8 => 0x2e,
        50u8 => 0xa1,
        51u8 => 0x66,
        52u8 => 0x28,
        53u8 => 0xd9,
        54u8 => 0x24,
        55u8 => 0xb2,
        56u8 => 0x76,
        57u8 => 0x5b,
        58u8 => 0xa2,
        59u8 => 0x49,
        60u8 => 0x6d,
        61u8 => 0x8b,
        62u8 => 0xd1,
        63u8 => 0x25,
        64u8 => 0x72,
        65u8 => 0xf8,
        66u8 => 0xf6,
        67u8 => 0x64,
        68u8 => 0x86,
        69u8 => 0x68,
        70u8 => 0x98,
        71u8 => 0x16,
        72u8 => 0xd4,
        73u8 => 0xa4,
        74u8 => 0x5c,
        75u8 => 0xcc,
        76u8 => 0x5d,
        77u8 => 0x65,
        78u8 => 0xb6,
        79u8 => 0x92,
        80u8 => 0x6c,
        81u8 => 0x70,
        82u8 => 0x48,
        83u8 => 0x50,
        84u8 => 0xfd,
        85u8 => 0xed,
        86u8 => 0xb9,
        87u8 => 0xda,
        88u8 => 0x5e,
        89u8 => 0x15,
        90u8 => 0x46,
        91u8 => 0x57,
        92u8 => 0xa7,
        93u8 => 0x8d,
        94u8 => 0x9d,
        95u8 => 0x84,
        96u8 => 0x90,
        97u8 => 0xd8,
        98u8 => 0xab,
        99u8 => 0x00,
        100u8 => 0x8c,
        101u8 => 0xbc,
        102u8 => 0xd3,
        103u8 => 0x0a,
        104u8 => 0xf7,
        105u8 => 0xe4,
        106u8 => 0x58,
        107u8 => 0x05,
        108u8 => 0xb8,
        109u8 => 0xb3,
        110u8 => 0x45,
        111u8 => 0x06,
        112u8 => 0xd0,
        113u8 => 0x2c,
        114u8 => 0x1e,
        115u8 => 0x8f,
        116u8 => 0xca,
        117u8 => 0x3f,
        118u8 => 0x0f,
        119u8 => 0x02,
        120u8 => 0xc1,
        121u8 => 0xaf,
        122u8 => 0xbd,
        123u8 => 0x03,
        124u8 => 0x01,
        125u8 => 0x13,
        126u8 => 0x8a,
        127u8 => 0x6b,
        128u8 => 0x3a,
        129u8 => 0x91,
        130u8 => 0x11,
        131u8 => 0x41,
        132u8 => 0x4f,
        133u8 => 0x67,
        134u8 => 0xdc,
        135u8 => 0xea,
        136u8 => 0x97,
        137u8 => 0xf2,
        138u8 => 0xcf,
        139u8 => 0xce,
        140u8 => 0xf0,
        141u8 => 0xb4,
        142u8 => 0xe6,
        143u8 => 0x73,
        144u8 => 0x96,
        145u8 => 0xac,
        146u8 => 0x74,
        147u8 => 0x22,
        148u8 => 0xe7,
        149u8 => 0xad,
        150u8 => 0x35,
        151u8 => 0x85,
        152u8 => 0xe2,
        153u8 => 0xf9,
        154u8 => 0x37,
        155u8 => 0xe8,
        156u8 => 0x1c,
        157u8 => 0x75,
        158u8 => 0xdf,
        159u8 => 0x6e,
        160u8 => 0x47,
        161u8 => 0xf1,
        162u8 => 0x1a,
        163u8 => 0x71,
        164u8 => 0x1d,
        165u8 => 0x29,
        166u8 => 0xc5,
        167u8 => 0x89,
        168u8 => 0x6f,
        169u8 => 0xb7,
        170u8 => 0x62,
        171u8 => 0x0e,
        172u8 => 0xaa,
        173u8 => 0x18,
        174u8 => 0xbe,
        175u8 => 0x1b,
        176u8 => 0xfc,
        177u8 => 0x56,
        178u8 => 0x3e,
        179u8 => 0x4b,
        180u8 => 0xc6,
        181u8 => 0xd2,
        182u8 => 0x79,
        183u8 => 0x20,
        184u8 => 0x9a,
        185u8 => 0xdb,
        186u8 => 0xc0,
        187u8 => 0xfe,
        188u8 => 0x78,
        189u8 => 0xcd,
        190u8 => 0x5a,
        191u8 => 0xf4,
        192u8 => 0x1f,
        193u8 => 0xdd,
        194u8 => 0xa8,
        195u8 => 0x33,
        196u8 => 0x88,
        197u8 => 0x07,
        198u8 => 0xc7,
        199u8 => 0x31,
        200u8 => 0xb1,
        201u8 => 0x12,
        202u8 => 0x10,
        203u8 => 0x59,
        204u8 => 0x27,
        205u8 => 0x80,
        206u8 => 0xec,
        207u8 => 0x5f,
        208u8 => 0x60,
        209u8 => 0x51,
        210u8 => 0x7f,
        211u8 => 0xa9,
        212u8 => 0x19,
        213u8 => 0xb5,
        214u8 => 0x4a,
        215u8 => 0x0d,
        216u8 => 0x2d,
        217u8 => 0xe5,
        218u8 => 0x7a,
        219u8 => 0x9f,
        220u8 => 0x93,
        221u8 => 0xc9,
        222u8 => 0x9c,
        223u8 => 0xef,
        224u8 => 0xa0,
        225u8 => 0xe0,
        226u8 => 0x3b,
        227u8 => 0x4d,
        228u8 => 0xae,
        229u8 => 0x2a,
        230u8 => 0xf5,
        231u8 => 0xb0,
        232u8 => 0xc8,
        233u8 => 0xeb,
        234u8 => 0xbb,
        235u8 => 0x3c,
        236u8 => 0x83,
        237u8 => 0x53,
        238u8 => 0x99,
        239u8 => 0x61,
        240u8 => 0x17,
        241u8 => 0x2b,
        242u8 => 0x04,
        243u8 => 0x7e,
        244u8 => 0xba,
        245u8 => 0x77,
        246u8 => 0xd6,
        247u8 => 0x26,
        248u8 => 0xe1,
        249u8 => 0x69,
        250u8 => 0x14,
        251u8 => 0x63,
        252u8 => 0x55,
        253u8 => 0x21,
        254u8 => 0x0c,
        _ => 0x7d,
    }
}

/// The AES forward S-box.
pub fn sbox(x: u8) -> (r: u8)
    ensures
        r == sbox_spec(x),
{
    match x {
        0u8 => 0x63,
        1u8 => 0x7c,
        2u8 => 0x77,
        3u8 => 0x7b,
        4u8 => 0xf2,
        5u8 => 0x6b,
        6u8 => 0x6f,
        7u8 => 0xc5,
        8u8 => 0x30,
        9u8 => 0x01,
        10u8 => 0x67,
        11u8 => 0x2b,
        12u8 => 0xfe,
        13u8 => 0xd7,
        14u8 => 0xab,
        15u8 => 0x76,
        16u8 => 0xca,
        17u8 => 0x82,
        18u8 => 0xc9,
        19u8 => 0x7d,
        20u8 => 0xfa,
        21u8 => 0x59,
        22u8 => 0x47,
        23u8 => 0xf0,
        24u8 => 0xad,
        25u8 => 0xd4,
        26u8 => 0xa2,
        27u8 => 0xaf,
        28u8 => 0x9c,
        29u8 => 0xa4,
        30u8 => 0x72,
        31u8 => 0xc0,
        32u8 => 0xb7,
        33u8 => 0xfd,
        34u8 => 0x93,
        35u8 => 0x26,
        36u8 => 0x36,
        37u8 => 0x3f,
        38u8 => 0xf7,
        39u8 => 0xcc,
        40u8 => 0x34,
        41u8 => 0xa5,
        42u8 => 0xe5,
        43u8 => 0xf1,
        44u8 => 0x71,
        45u8 => 0xd8,
        46u8 => 0x31,
        47u8 => 0x15,
        48u8 => 0x04,
        49u8 => 0xc7,
        50u8 => 0x23,
        51u8 => 0xc3,
        52u8 => 0x18,
        53u8 => 0x96,
        54u8 => 0x05,
        55u8 => 0x9a,
        56u8 => 0x07,
        57u8 => 0x12,
        58u8 => 0x80,
        59u8 => 0xe2,
        60u8 => 0xeb,
        61u8 => 0x27,
        62u8 => 0xb2,
        63u8 => 0x75,
        64u8 => 0x09,
        65u8 => 0x83,
        66u8 => 0x2c,
        67u8 => 0x1a,
        68u8 => 0x1b,
        69u8 => 0x6e,
        70u8 => 0x5a,
        71u8 => 0xa0,
        72u8 => 0x52,
        73u8 => 0x3b,
        74u8 => 0xd6,
        75u8 => 0xb3,
        76u8 => 0x29,
        77u8 => 0xe3,
        78u8 => 0x2f,
        79u8 => 0x84,
        80u8 => 0x53,
        81u8 => 0xd1,
        82u8 => 0x00,
        83u8 => 0xed,
        84u8 => 0x20,
        85u8 => 0xfc,
        86u8 => 0xb1,
        87u8 => 0x5b,
        88u8 => 0x6a,
        89u8 => 0xcb,
        90u8 => 0xbe,
        91u8 => 0x39,
        92u8 => 0x4a,
        93u8 => 0x4c,
        94u8 => 0x58,
        95u8 => 0xcf,
        96u8 => 0xd0,
        97u8 => 0xef,
        98u8 => 0xaa,
        99u8 => 0xfb,
        100u8 => 0x43,
        101u8 => 0x4d,
        102u8 => 0x33,
        103u8 => 0x85,
        104u8 => 0x45,
        105u8 => 0xf9,
        106u8 => 0x02,
        107u8 => 0x7f,
        108u8 => 0x50,
        109u8 => 0x3c,
        110u8 => 0x9f,
        111u8 => 0xa8,
        112u8 => 0x51,
        113u8 => 0xa3,
        114u8 => 0x40,
        115u8 => 0x8f,
        116u8 => 0x92,
        117u8 => 0x9d,
        118u8 => 0x38,
        119u8 => 0xf5,
        120u8 => 0xbc,
        121u8 => 0xb6,
        122u8 => 0xda,
        123u8 => 0x21,
        124u8 => 0x10,
        125u8 => 0xff,
        126u8 => 0xf3,
        127u8 => 0xd2,
        128u8 => 0xcd,
        129u8 => 0x0c,
        130u8 => 0x13,
        131u8 => 0xec,
        132u8 => 0x5f,
        133u8 => 0x97,
        134u8 => 0x44,
        135u8 => 0x17,
        136u8 => 0xc4,
        137u8 => 0xa7,
        138u8 => 0x7e,
        139u8 => 0x3d,
        140u8 => 0x64,
        141u8 => 0x5d,
        142u8 => 0x19,
        143u8 => 0x73,
        144u8 => 0x60,
        145u8 => 0x81,
        146u8 => 0x4f,
        147u8 => 0xdc,
        148u8 => 0x22,
        149u8 => 0x2a,
        150u8 => 0x90,
        151u8 => 0x88,
        152u8 => 0x46,
        153u8 => 0xee,
        154u8 => 0xb8,
        155u8 => 0x14,
        156u8 => 0xde,
        157u8 => 0x5e,
        158u8 => 0x0b,
        159u8 => 0xdb,
        160u8 => 0xe0,
        161u8 => 0x32,
        162u8 => 0x3a,
        163u8 => 0x0a,
        164u8 => 0x49,
        165u8 => 0x06,
        166u8 => 0x24,
        167u8 => 0x5c,
        168u8 => 0xc2,
        169u8 => 0xd3,
        170u8 => 0xac,
        171u8 => 0x62,
        172u8 => 0x91,
        173u8 => 0x95,
        174u8 => 0xe4,
        175u8 => 0x79,
        176u8 => 0xe7,
        177u8 => 0xc8,
        178u8 => 0x37,
        179u8 => 0x6d,
        180u8 => 0x8d,
        181u8 => 0xd5,
        182u8 => 0x4e,
        183u8 => 0xa9,
        184u8 => 0x6c,
        185u8 => 0x56,
        186u8 => 0xf4,
        187u8 => 0xea,
        188u8 => 0x65,
        189u8 => 0x7a,
        190u8 => 0xae,
        191u8 => 0x08,
        192u8 => 0xba,
        193u8 => 0x78,
        194u8 => 0x25,
        195u8 => 0x2e,
        196u8 => 0x1c,
        197u8 => 0xa6,
        198u8 => 0xb4,
        199u8 => 0xc6,
        200u8 => 0xe8,
        201u8 => 0xdd,
        202u8 => 0x74,
        203u8 => 0x1f,
        204u8 => 0x4b,
        205u8 => 0xbd,
        206u8 => 0x8b,
        207u8 => 0x8a,
        208u8 => 0x70,
        209u8 => 0x3e,
        210u8 => 0xb5,
        211u8 => 0x66,
        212u8 => 0x48,
        213u8 => 0x03,
        214u8 => 0xf6,
        215u8 => 0x0e,
        216u8 => 0x61,
        217u8 => 0x35,
        218u8 => 0x57,
        219u8 => 0xb9,
        220u8 => 0x86,
        221u8 => 0xc1,
        222u8 => 0x1d,
        223u8 => 0x9e,
        224u8 => 0xe1,
        225u8 => 0xf8,
        226u8 => 0x98,
        227u8 => 0x11,
        228u8 => 0x69,
        229u8 => 0xd9,
        230u8 => 0x8e,
        231u8 => 0x94,
        232u8 => 0x9b,
        233u8 => 0x1e,
        234u8 => 0x87,
        235u8 => 0xe9,
        236u8 => 0xce,
        237u8 => 0x55,
        238u8 => 0x28,
        239u8 => 0xdf,
        240u8 => 0x8c,
        241u8 => 0xa1,
        242u8 => 0x89,
        243u8 => 0x0d,
        244u8 => 0xbf,
        245u8 => 0xe6,
        246u8 => 0x42,
        247u8 => 0x68,
        248u8 => 0x41,
        249u8 => 0x99,
        250u8 => 0x2d,
        251u8 => 0x0f,
        252u8 => 0xb0,
        253u8 => 0x54,
        254u8 => 0xbb,
        _ => 0x16,
    }
}

/// The AES inverse S-box.
pub fn inv_sbox(x: u8) -> (r: u8)
    ensures
        r == inv_sbox_spec(x),
{
    match x {
        0u8 => 0x52,
        1u8 => 0x09,
        2u8 => 0x6a,
        3u8 => 0xd5,
        4u8 => 0x30,
        5u8 => 0x36,
        6u8 => 0xa5,
        7u8 => 0x38,
        8u8 => 0xbf,
        9u8 => 0x40,
        10u8 => 0xa3,
        11u8 => 0x9e,
        12u8 => 0x81,
        13u8 => 0xf3,
        14u8 => 0xd7,
        15u8 => 0xfb,
        16u8 => 0x7c,
        17u8 => 0xe3,
        18u8 => 0x39,
        19u8 => 0x82,
        20u8 => 0x9b,
        21u8 => 0x2f,
        22u8 => 0xff,
        23u8 => 0x87,
        24u8 => 0x34,
        25u8 => 0x8e,
        26u8 => 0x43,
        27u8 => 0x44,
        28u8 => 0xc4,
        29u8 => 0xde,
        30u8 => 0xe9,
        31u8 => 0xcb,
        32u8 => 0x54,
        33u8 => 0x7b,
        34u8 => 0x94,
        35u8 => 0x32,
        36u8 => 0xa6,
        37u8 => 0xc2,
        38u8 => 0x23,
        39u8 => 0x3d,
        40u8 => 0xee,
        41u8 => 0x4c,
        42u8 => 0x95,
        43u8 => 0x0b,
        44u8 => 0x42,
        45u8 => 0xfa,
        46u8 => 0xc3,
        47u8 => 0x4e,
        48u8 => 0x08,
        49u8 => 0x2e,
        50u8 => 0xa1,
        51u8 => 0x66,
        52u8 => 0x28,
        53u8 => 0xd9,
        54u8 => 0x24,
        55u8 => 0xb2,
        56u8 => 0x76,
        57u8 => 0x5b,
        58u8 => 0xa2,
        59u8 => 0x49,
        60u8 => 0x6d,
        61u8 => 0x8b,
        62u8 => 0xd1,
        63u8 => 0x25,
        64u8 => 0x72,
        65u8 => 0xf8,
        66u8 => 0xf6,
        67u8 => 0x64,
        68u8 => 0x86,
        69u8 => 0x68,
        70u8 => 0x98,
        71u8 => 0x16,
        72u8 => 0xd4,
        73u8 => 0xa4,
        74u8 => 0x5c,
        75u8 => 0xcc,
        76u8 => 0x5d,
        77u8 => 0x65,
        78u8 => 0xb6,
        79u8 => 0x92,
        80u8 => 0x6c,
        81u8 => 0x70,
        82u8 => 0x48,
        83u8 => 0x50,
        84u8 => 0xfd,
        85u8 => 0xed,
        86u8 => 0xb9,
        87u8 => 0xda,
        88u8 => 0x5e,
        89u8 => 0x15,
        90u8 => 0x46,
        91u8 => 0x57,
        92u8 => 0xa7,
        93u8 => 0x8d,
        94u8 => 0x9d,
        95u8 => 0x84,
        96u8 => 0x90,
        97u8 => 0xd8,
        98u8 => 0xab,
        99u8 => 0x00,
        100u8 => 0x8c,
        101u8 => 0xbc,
        102u8 => 0xd3,
        103u8 => 0x0a,
        104u8 => 0xf7,
        105u8 => 0xe4,
        106u8 => 0x58,
        107u8 => 0x05,
        108u8 => 0xb8,
        109u8 => 0xb3,
        110u8 => 0x45,
        111u8 => 0x06,
        112u8 => 0xd0,
        113u8 => 0x2c,
        114u8 => 0x1e,
        115u8 => 0x8f,
        116u8 => 0xca,
        117u8 => 0x3f,
        118u8 => 0x0f,
        119u8 => 0x02,
        120u8 => 0xc1,
        121u8 => 0xaf,
        122u8 => 0xbd,
        123u8 => 0x03,
        124u8 => 0x01,
        125u8 => 0x13,
        126u8 => 0x8a,
        127u8 => 0x6b,
        128u8 => 0x3a,
        129u8 => 0x91,
        130u8 => 0x11,
        131u8 => 0x41,
        132u8 => 0x4f,
        133u8 => 0x67,
        134u8 => 0xdc,
        135u8 => 0xea,
        136u8 => 0x97,
        137u8 => 0xf2,
        138u8 => 0xcf,
        139u8 => 0xce,
        140u8 => 0xf0,
        141u8 => 0xb4,
        142u8 => 0xe6,
        143u8 => 0x73,
        144u8 => 0x96,
        145u8 => 0xac,
        146u8 => 0x74,
        147u8 => 0x22,
        148u8 => 0xe7,
        149u8 => 0xad,
        150u8 => 0x35,
        151u8 => 0x85,
        152u8 => 0xe2,
        153u8 => 0xf9,
        154u8 => 0x37,
        155u8 => 0xe8,
        156u8 => 0x1c,
        157u8 => 0x75,
        158u8 => 0xdf,
        159u8 => 0x6e,
        160u8 => 0x47,
        161u8 => 0xf1,
        162u8 => 0x1a,
        163u8 => 0x71,
        164u8 => 0x1d,
        165u8 => 0x29,
        166u8 => 0xc5,
        167u8 => 0x89,
        168u8 => 0x6f,
        169u8 => 0xb7,
        170u8 => 0x62,
        171u8 => 0x0e,
        172u8 => 0xaa,
        173u8 => 0x18,
        174u8 => 0xbe,
        175u8 => 0x1b,
        176u8 => 0xfc,
        177u8 => 0x56,
        178u8 => 0x3e,
        179u8 => 0x4b,
        180u8 => 0xc6,
        181u8 => 0xd2,
        182u8 => 0x79,
        183u8 => 0x20,
        184u8 => 0x9a,
        185u8 => 0xdb,
        186u8 => 0xc0,
        187u8 => 0xfe,
        188u8 => 0x78,
        189u8 => 0xcd,
        190u8 => 0x5a,
        191u8 => 0xf4,
        192u8 => 0x1f,
        193u8 => 0xdd,
        194u8 => 0xa8,
        195u8 => 0x33,
        196u8 => 0x88,
        197u8 => 0x07,
        198u8 => 0xc7,
        199u8 => 0x31,
        200u8 => 0xb1,
        201u8 => 0x12,
        202u8 => 0x10,
        203u8 => 0x59,
        204u8 => 0x27,
        205u8 => 0x80,
        206u8 => 0xec,
        207u8 => 0x5f,
        208u8 => 0x60,
        209u8 => 0x51,
        210u8 => 0x7f,
        211u8 => 0xa9,
        212u8 => 0x19,
        213u8 => 0xb5,
        214u8 => 0x4a,
        215u8 => 0x0d,
        216u8 => 0x2d,
        217u8 => 0xe5,
        218u8 => 0x7a,
        219u8 => 0x9f,
        220u8 => 0x93,
        221u8 => 0xc9,
        222u8 => 0x9c,
        223u8 => 0xef,
        224u8 => 0xa0,
        225u8 => 0xe0,
        226u8 => 0x3b,
        227u8 => 0x4d,
        228u8 => 0xae,
        229u8 => 0x2a,
        230u8 => 0xf5,
        231u8 => 0xb0,
        232u8 => 0xc8,
        233u8 => 0xeb,
        234u8 => 0xbb,
        235u8 => 0x3c,
        236u8 => 0x83,
        237u8 => 0x53,
        238u8 => 0x99,
        239u8 => 0x61,
        240u8 => 0x17,
        241u8 => 0x2b,
        242u8 => 0x04,
        243u8 => 0x7e,
        244u8 => 0xba,
        245u8 => 0x77,
        246u8 => 0xd6,
        247u8 => 0x26,
        248u8 => 0xe1,
        249u8 => 0x69,
        250u8 => 0x14,
        251u8 => 0x63,
        252u8 => 0x55,
        253u8 => 0x21,
        254u8 => 0x0c,
        _ => 0x7d,
    }
}

} // verus!
