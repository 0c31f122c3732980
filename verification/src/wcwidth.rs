//! Column widths of Unicode code points on a character terminal, after
//! the classic wcwidth tables, with a UTF-8 code-point walker.

use vstd::prelude::*;

verus! {

/// The `combining` interval table.
pub open spec fn spec_combining_table() -> Seq<(u32, u32)> {
    seq![
        (0x300u32, 0x34eu32),
        (0x360u32, 0x362u32),
        (0x483u32, 0x486u32),
        (0x488u32, 0x489u32),
        (0x591u32, 0x5a1u32),
        (0x5a3u32, 0x5b9u32),
        (0x5bbu32, 0x5bdu32),
        (0x5bfu32, 0x5bfu32),
        (0x5c1u32, 0x5c2u32),
        (0x5c4u32, 0x5c4u32),
        (0x64bu32, 0x655u32),
        (0x670u32, 0x670u32),
        (0x6d6u32, 0x6e4u32),
        (0x6e7u32, 0x6e8u32),
        (0x6eau32, 0x6edu32),
        (0x70fu32, 0x70fu32),
        (0x711u32, 0x711u32),
        (0x730u32, 0x74au32),
        (0x7a6u32, 0x7b0u32),
        (0x901u32, 0x902u32),
        (0x93cu32, 0x93cu32),
        (0x941u32, 0x948u32),
        (0x94du32, 0x94du32),
        (0x951u32, 0x954u32),
        (0x962u32, 0x963u32),
        (0x981u32, 0x981u32),
        (0x9bcu32, 0x9bcu32),
        (0x9c1u32, 0x9c4u32),
        (0x9cdu32, 0x9cdu32),
        (0x9e2u32, 0x9e3u32),
        (0xa02u32, 0xa02u32),
        (0xa3cu32, 0xa3cu32),
        (0xa41u32, 0xa42u32),
        (0xa47u32, 0xa48u32),
        (0xa4bu32, 0xa4du32),
        (0xa70u32, 0xa71u32),
        (0xa81u32, 0xa82u32),
        (0xabcu32, 0xabcu32),
        (0xac1u32, 0xac5u32),
        (0xac7u32, 0xac8u32),
        (0xacdu32, 0xacdu32),
        (0xb01u32, 0xb01u32),
        (0xb3cu32, 0xb3cu32),
        (0xb3fu32, 0xb3fu32),
        (0xb41u32, 0xb43u32),
        (0xb4du32, 0xb4du32),
        (0xb56u32, 0xb56u32),
        (0xb82u32, 0xb82u32),
        (0xbc0u32, 0xbc0u32),
        (0xbcdu32, 0xbcdu32),
        (0xc3eu32, 0xc40u32),
        (0xc46u32, 0xc48u32),
        (0xc4au32, 0xc4du32),
        (0xc55u32, 0xc56u32),
        (0xcbfu32, 0xcbfu32),
        (0xcc6u32, 0xcc6u32),
        (0xcccu32, 0xccdu32),
        (0xd41u32, 0xd43u32),
        (0xd4du32, 0xd4du32),
        (0xdcau32, 0xdcau32),
        (0xdd2u32, 0xdd4u32),
        (0xdd6u32, 0xdd6u32),
        (0xe31u32, 0xe31u32),
        (0xe34u32, 0xe3au32),
        (0xe47u32, 0xe4eu32),
        (0xeb1u32, 0xeb1u32),
        (0xeb4u32, 0xeb9u32),
        (0xebbu32, 0xebcu32),
        (0xec8u32, 0xecdu32),
        (0xf18u32, 0xf19u32),
        (0xf35u32, 0xf35u32),
        (0xf37u32, 0xf37u32),
        (0xf39u32, 0xf39u32),
        (0xf71u32, 0xf7eu32),
        (0xf80u32, 0xf84u32),
        (0xf86u32, 0xf87u32),
        (0xf90u32, 0xf97u32),
        (0xf99u32, 0xfbcu32),
        (0xfc6u32, 0xfc6u32),
        (0x102du32, 0x1030u32),
        (0x1032u32, 0x1032u32),
        (0x1036u32, 0x1037u32),
        (0x1039u32, 0x1039u32),
        (0x1058u32, 0x1059u32),
        (0x1160u32, 0x11ffu32),
        (0x17b7u32, 0x17bdu32),
        (0x17c6u32, 0x17c6u32),
        (0x17c9u32, 0x17d3u32),
        (0x180bu32, 0x180eu32),
        (0x18a9u32, 0x18a9u32),
        (0x200bu32, 0x200fu32),
        (0x202au32, 0x202eu32),
        (0x206au32, 0x206fu32),
        (0x20d0u32, 0x20e3u32),
        (0x302au32, 0x302fu32),
        (0x3099u32, 0x309au32),
        (0xfb1eu32, 0xfb1eu32),
        (0xfe20u32, 0xfe23u32),
        (0xfeffu32, 0xfeffu32),
        (0xfff9u32, 0xfffbu32),
    ]
}

/// The `combining` interval table.
pub fn combining_table() -> (t: Vec<(u32, u32)>)
    ensures
        t@ == spec_combining_table(),
{
    let t: Vec<(u32, u32)> = vec![
        (0x300u32, 0x34eu32),
        (0x360u32, 0x362u32),
        (0x483u32, 0x486u32),
        (0x488u32, 0x489u32),
        (0x591u32, 0x5a1u32),
        (0x5a3u32, 0x5b9u32),
        (0x5bbu32, 0x5bdu32),
        (0x5bfu32, 0x5bfu32),
        (0x5c1u32, 0x5c2u32),
        (0x5c4u32, 0x5c4u32),
        (0x64bu32, 0x655u32),
        (0x670u32, 0x670u32),
        (0x6d6u32, 0x6e4u32),
        (0x6e7u32, 0x6e8u32),
        (0x6eau32, 0x6edu32),
        (0x70fu32, 0x70fu32),
        (0x711u32, 0x711u32),
        (0x730u32, 0x74au32),
        (0x7a6u32, 0x7b0u32),
        (0x901u32, 0x902u32),
        (0x93cu32, 0x93cu32),
        (0x941u32, 0x948u32),
        (0x94du32, 0x94du32),
        (0x951u32, 0x954u32),
        (0x962u32, 0x963u32),
        (0x981u32, 0x981u32),
        (0x9bcu32, 0x9bcu32),
        (0x9c1u32, 0x9c4u32),
        (0x9cdu32, 0x9cdu32),
        (0x9e2u32, 0x9e3u32),
        (0xa02u32, 0xa02u32),
        (0xa3cu32, 0xa3cu32),
        (0xa41u32, 0xa42u32),
        (0xa47u32, 0xa48u32),
        (0xa4bu32, 0xa4du32),
        (0xa70u32, 0xa71u32),
        (0xa81u32, 0xa82u32),
        (0xabcu32, 0xabcu32),
        (0xac1u32, 0xac5u32),
        (0xac7u32, 0xac8u32),
        (0xacdu32, 0xacdu32),
        (0xb01u32, 0xb01u32),
        (0xb3cu32, 0xb3cu32),
        (0xb3fu32, 0xb3fu32),
        (0xb41u32, 0xb43u32),
        (0xb4du32, 0xb4du32),
        (0xb56u32, 0xb56u32),
        (0xb82u32, 0xb82u32),
        (0xbc0u32, 0xbc0u32),
        (0xbcdu32, 0xbcdu32),
        (0xc3eu32, 0xc40u32),
        (0xc46u32, 0xc48u32),
        (0xc4au32, 0xc4du32),
        (0xc55u32, 0xc56u32),
        (0xcbfu32, 0xcbfu32),
        (0xcc6u32, 0xcc6u32),
        (0xcccu32, 0xccdu32),
        (0xd41u32, 0xd43u32),
        (0xd4du32, 0xd4du32),
        (0xdcau32, 0xdcau32),
        (0xdd2u32, 0xdd4u32),
        (0xdd6u32, 0xdd6u32),
        (0xe31u32, 0xe31u32),
        (0xe34u32, 0xe3au32),
        (0xe47u32, 0xe4eu32),
        (0xeb1u32, 0xeb1u32),
        (0xeb4u32, 0xeb9u32),
        (0xebbu32, 0xebcu32),
        (0xec8u32, 0xecdu32),
        (0xf18u32, 0xf19u32),
        (0xf35u32, 0xf35u32),
        (0xf37u32, 0xf37u32),
        (0xf39u32, 0xf39u32),
        (0xf71u32, 0xf7eu32),
        (0xf80u32, 0xf84u32),
        (0xf86u32, 0xf87u32),
        (0xf90u32, 0xf97u32),
        (0xf99u32, 0xfbcu32),
        (0xfc6u32, 0xfc6u32),
        (0x102du32, 0x1030u32),
        (0x1032u32, 0x1032u32),
        (0x1036u32, 0x1037u32),
        (0x1039u32, 0x1039u32),
        (0x1058u32, 0x1059u32),
        (0x1160u32, 0x11ffu32),
        (0x17b7u32, 0x17bdu32),
        (0x17c6u32, 0x17c6u32),
        (0x17c9u32, 0x17d3u32),
        (0x180bu32, 0x180eu32),
        (0x18a9u32, 0x18a9u32),
        (0x200bu32, 0x200fu32),
        (0x202au32, 0x202eu32),
        (0x206au32, 0x206fu32),
        (0x20d0u32, 0x20e3u32),
        (0x302au32, 0x302fu32),
        (0x3099u32, 0x309au32),
        (0xfb1eu32, 0xfb1eu32),
        (0xfe20u32, 0xfe23u32),
        (0xfeffu32, 0xfeffu32),
        (0xfff9u32, 0xfffbu32),
    ];
    proof {
        assert(t@ =~= spec_combining_table());
    }
    t
}

/// The `ambiguous` interval table.
pub open spec fn spec_ambiguous_table() -> Seq<(u32, u32)> {
    seq![
        (0xa1u32, 0xa1u32),
        (0xa4u32, 0xa4u32),
        (0xa7u32, 0xa8u32),
        (0xaau32, 0xaau32),
        (0xadu32, 0xaeu32),
        (0xb0u32, 0xb4u32),
        (0xb6u32, 0xbau32),
        (0xbcu32, 0xbfu32),
        (0xc6u32, 0xc6u32),
        (0xd0u32, 0xd0u32),
        (0xd7u32, 0xd8u32),
        (0xdeu32, 0xe1u32),
        (0xe6u32, 0xe6u32),
        (0xe8u32, 0xeau32),
        (0xecu32, 0xedu32),
        (0xf0u32, 0xf0u32),
        (0xf2u32, 0xf3u32),
        (0xf7u32, 0xfau32),
        (0xfcu32, 0xfcu32),
        (0xfeu32, 0xfeu32),
        (0x101u32, 0x101u32),
        (0x111u32, 0x111u32),
        (0x113u32, 0x113u32),
        (0x11bu32, 0x11bu32),
        (0x126u32, 0x127u32),
        (0x12bu32, 0x12bu32),
        (0x131u32, 0x133u32),
        (0x138u32, 0x138u32),
        (0x13fu32, 0x142u32),
        (0x144u32, 0x144u32),
        (0x148u32, 0x14bu32),
        (0x14du32, 0x14du32),
        (0x152u32, 0x153u32),
        (0x166u32, 0x167u32),
        (0x16bu32, 0x16bu32),
        (0x1ceu32, 0x1ceu32),
        (0x1d0u32, 0x1d0u32),
        (0x1d2u32, 0x1d2u32),
        (0x1d4u32, 0x1d4u32),
        (0x1d6u32, 0x1d6u32),
        (0x1d8u32, 0x1d8u32),
        (0x1dau32, 0x1dau32),
        (0x1dcu32, 0x1dcu32),
        (0x251u32, 0x251u32),
        (0x261u32, 0x261u32),
        (0x2c4u32, 0x2c4u32),
        (0x2c7u32, 0x2c7u32),
        (0x2c9u32, 0x2cbu32),
        (0x2cdu32, 0x2cdu32),
        (0x2d0u32, 0x2d0u32),
        (0x2d8u32, 0x2dbu32),
        (0x2ddu32, 0x2ddu32),
        (0x2dfu32, 0x2dfu32),
        (0x300u32, 0x34eu32),
        (0x360u32, 0x362u32),
        (0x391u32, 0x3a1u32),
        (0x3a3u32, 0x3a9u32),
        (0x3b1u32, 0x3c1u32),
        (0x3c3u32, 0x3c9u32),
        (0x401u32, 0x401u32),
        (0x410u32, 0x44fu32),
        (0x451u32, 0x451u32),
        (0x2010u32, 0x2010u32),
        (0x2013u32, 0x2016u32),
        (0x2018u32, 0x2019u32),
        (0x201cu32, 0x201du32),
        (0x2020u32, 0x2022u32),
        (0x2024u32, 0x2027u32),
        (0x2030u32, 0x2030u32),
        (0x2032u32, 0x2033u32),
        (0x2035u32, 0x2035u32),
        (0x203bu32, 0x203bu32),
        (0x203eu32, 0x203eu32),
        (0x2074u32, 0x2074u32),
        (0x207fu32, 0x207fu32),
        (0x2081u32, 0x2084u32),
        (0x20acu32, 0x20acu32),
        (0x2103u32, 0x2103u32),
        (0x2105u32, 0x2105u32),
        (0x2109u32, 0x2109u32),
        (0x2113u32, 0x2113u32),
        (0x2116u32, 0x2116u32),
        (0x2121u32, 0x2122u32),
        (0x2126u32, 0x2126u32),
        (0x212bu32, 0x212bu32),
        (0x2153u32, 0x2155u32),
        (0x215bu32, 0x215eu32),
        (0x2160u32, 0x216bu32),
        (0x2170u32, 0x2179u32),
        (0x2190u32, 0x2199u32),
        (0x21b8u32, 0x21b9u32),
        (0x21d2u32, 0x21d2u32),
        (0x21d4u32, 0x21d4u32),
        (0x21e7u32, 0x21e7u32),
        (0x2200u32, 0x2200u32),
        (0x2202u32, 0x2203u32),
        (0x2207u32, 0x2208u32),
        (0x220bu32, 0x220bu32),
        (0x220fu32, 0x220fu32),
        (0x2211u32, 0x2211u32),
        (0x2215u32, 0x2215u32),
        (0x221au32, 0x221au32),
        (0x221du32, 0x2220u32),
        (0x2223u32, 0x2223u32),
        (0x2225u32, 0x2225u32),
        (0x2227u32, 0x222cu32),
        (0x222eu32, 0x222eu32),
        (0x2234u32, 0x2237u32),
        (0x223cu32, 0x223du32),
        (0x2248u32, 0x2248u32),
        (0x224cu32, 0x224cu32),
        (0x2252u32, 0x2252u32),
        (0x2260u32, 0x2261u32),
        (0x2264u32, 0x2267u32),
        (0x226au32, 0x226bu32),
        (0x226eu32, 0x226fu32),
        (0x2282u32, 0x2283u32),
        (0x2286u32, 0x2287u32),
        (0x2295u32, 0x2295u32),
        (0x2299u32, 0x2299u32),
        (0x22a5u32, 0x22a5u32),
        (0x22bfu32, 0x22bfu32),
        (0x2312u32, 0x2312u32),
        (0x2329u32, 0x232au32),
        (0x2460u32, 0x24bfu32),
        (0x24d0u32, 0x24e9u32),
        (0x2500u32, 0x254bu32),
        (0x2550u32, 0x2574u32),
        (0x2580u32, 0x258fu32),
        (0x2592u32, 0x2595u32),
        (0x25a0u32, 0x25a1u32),
        (0x25a3u32, 0x25a9u32),
        (0x25b2u32, 0x25b3u32),
        (0x25b6u32, 0x25b7u32),
        (0x25bcu32, 0x25bdu32),
        (0x25c0u32, 0x25c1u32),
        (0x25c6u32, 0x25c8u32),
        (0x25cbu32, 0x25cbu32),
        (0x25ceu32, 0x25d1u32),
        (0x25e2u32, 0x25e5u32),
        (0x25efu32, 0x25efu32),
        (0x2605u32, 0x2606u32),
        (0x2609u32, 0x2609u32),
        (0x260eu32, 0x260fu32),
        (0x261cu32, 0x261cu32),
        (0x261eu32, 0x261eu32),
        (0x2640u32, 0x2640u32),
        (0x2642u32, 0x2642u32),
        (0x2660u32, 0x2661u32),
        (0x2663u32, 0x2665u32),
        (0x2667u32, 0x266au32),
        (0x266cu32, 0x266du32),
        (0x266fu32, 0x266fu32),
        (0x273du32, 0x273du32),
        (0x3008u32, 0x300bu32),
        (0x3014u32, 0x3015u32),
        (0x3018u32, 0x301bu32),
        (0xfffdu32, 0xfffdu32),
    ]
}

/// The `ambiguous` interval table.
pub fn ambiguous_table() -> (t: Vec<(u32, u32)>)
    ensures
        t@ == spec_ambiguous_table(),
{
    let t: Vec<(u32, u32)> = vec![
        (0xa1u32, 0xa1u32),
        (0xa4u32, 0xa4u32),
        (0xa7u32, 0xa8u32),
        (0xaau32, 0xaau32),
        (0xadu32, 0xaeu32),
        (0xb0u32, 0xb4u32),
        (0xb6u32, 0xbau32),
        (0xbcu32, 0xbfu32),
        (0xc6u32, 0xc6u32),
        (0xd0u32, 0xd0u32),
        (0xd7u32, 0xd8u32),
        (0xdeu32, 0xe1u32),
        (0xe6u32, 0xe6u32),
        (0xe8u32, 0xeau32),
        (0xecu32, 0xedu32),
        (0xf0u32, 0xf0u32),
        (0xf2u32, 0xf3u32),
        (0xf7u32, 0xfau32),
        (0xfcu32, 0xfcu32),
        (0xfeu32, 0xfeu32),
        (0x101u32, 0x101u32),
        (0x111u32, 0x111u32),
        (0x113u32, 0x113u32),
        (0x11bu32, 0x11bu32),
        (0x126u32, 0x127u32),
        (0x12bu32, 0x12bu32),
        (0x131u32, 0x133u32),
        (0x138u32, 0x138u32),
        (0x13fu32, 0x142u32),
        (0x144u32, 0x144u32),
        (0x148u32, 0x14bu32),
        (0x14du32, 0x14du32),
        (0x152u32, 0x153u32),
        (0x166u32, 0x167u32),
        (0x16bu32, 0x16bu32),
        (0x1ceu32, 0x1ceu32),
        (0x1d0u32, 0x1d0u32),
        (0x1d2u32, 0x1d2u32),
        (0x1d4u32, 0x1d4u32),
        (0x1d6u32, 0x1d6u32),
        (0x1d8u32, 0x1d8u32),
        (0x1dau32, 0x1dau32),
        (0x1dcu32, 0x1dcu32),
        (0x251u32, 0x251u32),
        (0x261u32, 0x261u32),
        (0x2c4u32, 0x2c4u32),
        (0x2c7u32, 0x2c7u32),
        (0x2c9u32, 0x2cbu32),
        (0x2cdu32, 0x2cdu32),
        (0x2d0u32, 0x2d0u32),
        (0x2d8u32, 0x2dbu32),
        (0x2ddu32, 0x2ddu32),
        (0x2dfu32, 0x2dfu32),
        (0x300u32, 0x34eu32),
        (0x360u32, 0x362u32),
        (0x391u32, 0x3a1u32),
        (0x3a3u32, 0x3a9u32),
        (0x3b1u32, 0x3c1u32),
        (0x3c3u32, 0x3c9u32),
        (0x401u32, 0x401u32),
        (0x410u32, 0x44fu32),
        (0x451u32, 0x451u32),
        (0x2010u32, 0x2010u32),
        (0x2013u32, 0x2016u32),
        (0x2018u32, 0x2019u32),
        (0x201cu32, 0x201du32),
        (0x2020u32, 0x2022u32),
        (0x2024u32, 0x2027u32),
        (0x2030u32, 0x2030u32),
        (0x2032u32, 0x2033u32),
        (0x2035u32, 0x2035u32),
        (0x203bu32, 0x203bu32),
        (0x203eu32, 0x203eu32),
        (0x2074u32, 0x2074u32),
        (0x207fu32, 0x207fu32),
        (0x2081u32, 0x2084u32),
        (0x20acu32, 0x20acu32),
        (0x2103u32, 0x2103u32),
        (0x2105u32, 0x2105u32),
        (0x2109u32, 0x2109u32),
        (0x2113u32, 0x2113u32),
        (0x2116u32, 0x2116u32),
        (0x2121u32, 0x2122u32),
        (0x2126u32, 0x2126u32),
        (0x212bu32, 0x212bu32),
        (0x2153u32, 0x2155u32),
        (0x215bu32, 0x215eu32),
        (0x2160u32, 0x216bu32),
        (0x2170u32, 0x2179u32),
        (0x2190u32, 0x2199u32),
        (0x21b8u32, 0x21b9u32),
        (0x21d2u32, 0x21d2u32),
        (0x21d4u32, 0x21d4u32),
        (0x21e7u32, 0x21e7u32),
        (0x2200u32, 0x2200u32),
        (0x2202u32, 0x2203u32),
        (0x2207u32, 0x2208u32),
        (0x220bu32, 0x220bu32),
        (0x220fu32, 0x220fu32),
        (0x2211u32, 0x2211u32),
        (0x2215u32, 0x2215u32),
        (0x221au32, 0x221au32),
        (0x221du32, 0x2220u32),
        (0x2223u32, 0x2223u32),
        (0x2225u32, 0x2225u32),
        (0x2227u32, 0x222cu32),
        (0x222eu32, 0x222eu32),
        (0x2234u32, 0x2237u32),
        (0x223cu32, 0x223du32),
        (0x2248u32, 0x2248u32),
        (0x224cu32, 0x224cu32),
        (0x2252u32, 0x2252u32),
        (0x2260u32, 0x2261u32),
        (0x2264u32, 0x2267u32),
        (0x226au32, 0x226bu32),
        (0x226eu32, 0x226fu32),
        (0x2282u32, 0x2283u32),
        (0x2286u32, 0x2287u32),
        (0x2295u32, 0x2295u32),
        (0x2299u32, 0x2299u32),
        (0x22a5u32, 0x22a5u32),
        (0x22bfu32, 0x22bfu32),
        (0x2312u32, 0x2312u32),
        (0x2329u32, 0x232au32),
        (0x2460u32, 0x24bfu32),
        (0x24d0u32, 0x24e9u32),
        (0x2500u32, 0x254bu32),
        (0x2550u32, 0x2574u32),
        (0x2580u32, 0x258fu32),
        (0x2592u32, 0x2595u32),
        (0x25a0u32, 0x25a1u32),
        (0x25a3u32, 0x25a9u32),
        (0x25b2u32, 0x25b3u32),
        (0x25b6u32, 0x25b7u32),
        (0x25bcu32, 0x25bdu32),
        (0x25c0u32, 0x25c1u32),
        (0x25c6u32, 0x25c8u32),
        (0x25cbu32, 0x25cbu32),
        (0x25ceu32, 0x25d1u32),
        (0x25e2u32, 0x25e5u32),
        (0x25efu32, 0x25efu32),
        (0x2605u32, 0x2606u32),
        (0x2609u32, 0x2609u32),
        (0x260eu32, 0x260fu32),
        (0x261cu32, 0x261cu32),
        (0x261eu32, 0x261eu32),
        (0x2640u32, 0x2640u32),
        (0x2642u32, 0x2642u32),
        (0x2660u32, 0x2661u32),
        (0x2663u32, 0x2665u32),
        (0x2667u32, 0x266au32),
        (0x266cu32, 0x266du32),
        (0x266fu32, 0x266fu32),
        (0x273du32, 0x273du32),
        (0x3008u32, 0x300bu32),
        (0x3014u32, 0x3015u32),
        (0x3018u32, 0x301bu32),
        (0xfffdu32, 0xfffdu32),
    ];
    proof {
        assert(t@ =~= spec_ambiguous_table());
    }
    t
}

/// Binary search over an interval table, as the width functions use
/// it. Note the early test: a code point outside the table's overall
/// range also yields `true`, exactly as the width functions expect it;
/// only an in-range code point is actually searched for.
pub open spec fn spec_bisearch_from(t: Seq<(u32, u32)>, ucs: u32, min: int, max: int) -> bool
    decreases max + 1 - min,
{
    if max < min {
        false
    } else {
        let mid = (min + max) / 2;
        if !(0 <= mid < t.len()) {
            false
        } else if ucs > t[mid].1 {
            spec_bisearch_from(t, ucs, mid + 1, max)
        } else if ucs < t[mid].0 {
            if min <= mid - 1 + 1 {
                spec_bisearch_from(t, ucs, min, mid - 1)
            } else {
                false
            }
        } else {
            true
        }
    }
}

/// What `bisearch` answers for a code point: `true` outside the
/// table's overall range, and otherwise membership in an interval.
pub open spec fn spec_bisearch(t: Seq<(u32, u32)>, ucs: u32) -> bool {
    if t.len() == 0 {
        true
    } else if ucs < t[0].0 || ucs > t[t.len() - 1].1 {
        true
    } else {
        spec_bisearch_from(t, ucs, 0, t.len() - 1)
    }
}

/// Binary search in an interval table.
#[verifier::loop_isolation(false)]
pub fn bisearch(ucs: u32, table: &Vec<(u32, u32)>) -> (r: bool)
    requires
        table@.len() >= 1,
    ensures
        r == spec_bisearch(table@, ucs),
{
    let n = table.len();
    let mut min: usize = 0;
    let mut max: usize = n - 1;
    proof {
        assert(n <= usize::MAX);
    }
    if ucs < table[0].0 || ucs > table[max].1 {
        return true;
    }
    while max >= min
        invariant
            max < n,
            n == table@.len(),
            spec_bisearch(table@, ucs) == spec_bisearch_from(table@, ucs, min as int, max as int),
        decreases max + 1 - min,
    {
        let mid = min + (max - min) / 2;
        proof {
            assert(mid as int == (min + max) / 2) by (nonlinear_arith)
                requires
                    mid as int == min + (max - min) / 2,
                    0 <= min <= max,
            ;
        }
        if ucs > table[mid].1 {
            min = mid + 1;
            if min > max {
                proof {
                    assert(!spec_bisearch_from(table@, ucs, min as int, max as int));
                }
                return false;
            }
        } else if ucs < table[mid].0 {
            if mid == 0 {
                proof {
                    assert(!spec_bisearch_from(table@, ucs, min as int, mid - 1));
                }
                return false;
            }
            max = mid - 1;
            if max < min {
                proof {
                    assert(!spec_bisearch_from(table@, ucs, min as int, max as int));
                }
                return false;
            }
        } else {
            return true;
        }
    }
    false
}

/// The column width of one code point: 0 for NUL, `None` for other
/// control characters, 2 for the East Asian wide blocks, 1 otherwise
/// (combining characters included: this renderer gives them a cell).
pub open spec fn spec_wcwidth(ucs: u32) -> Option<usize> {
    if ucs == 0 {
        Some(0usize)
    } else if ucs < 32 || (ucs >= 0x7f && ucs < 0xa0) {
        None
    } else if spec_bisearch(spec_combining_table(), ucs) {
        Some(1usize)
    } else if spec_is_wide(ucs) {
        Some(2usize)
    } else {
        Some(1usize)
    }
}

/// The East Asian wide and fullwidth blocks.
pub open spec fn spec_is_wide(ucs: u32) -> bool {
    ucs >= 0x1100 && (ucs <= 0x115f || (ucs >= 0x2e80 && ucs <= 0xa4cf && (ucs & !0x0011u32)
        != 0x300a && ucs != 0x303f) || (ucs >= 0xac00 && ucs <= 0xd7a3) || (ucs >= 0xf900 && ucs
        <= 0xfaff) || (ucs >= 0xfe30 && ucs <= 0xfe6f) || (ucs >= 0xff00 && ucs <= 0xff5f) || (ucs
        >= 0xffe0 && ucs <= 0xffe6) || (ucs >= 0x20000 && ucs <= 0x2ffff))
}

/// The column width of one code point.
pub fn wcwidth(ucs: u32) -> (r: Option<usize>)
    ensures
        r == spec_wcwidth(ucs),
{
    if ucs == 0 {
        return Some(0);
    }
    if ucs < 32 || (ucs >= 0x7f && ucs < 0xa0) {
        return None;
    }
    let combining = combining_table();
    if bisearch(ucs, &combining) {
        return Some(1);
    }
    let wide = ucs >= 0x1100 && (ucs <= 0x115f || (ucs >= 0x2e80 && ucs <= 0xa4cf && (ucs
        & !0x0011u32) != 0x300a && ucs != 0x303f) || (ucs >= 0xac00 && ucs <= 0xd7a3) || (ucs
        >= 0xf900 && ucs <= 0xfaff) || (ucs >= 0xfe30 && ucs <= 0xfe6f) || (ucs >= 0xff00 && ucs
        <= 0xff5f) || (ucs >= 0xffe0 && ucs <= 0xffe6) || (ucs >= 0x20000 && ucs <= 0x2ffff));
    if wide {
        Some(2)
    } else {
        Some(1)
    }
}

/// The column width with East Asian Ambiguous characters counted as
/// two cells, for CJK legacy environments.
pub open spec fn spec_wcwidth_cjk(ucs: u32) -> Option<usize> {
    if spec_bisearch(spec_ambiguous_table(), ucs) {
        Some(2usize)
    } else {
        spec_wcwidth(ucs)
    }
}

/// The column width, CJK variant.
pub fn wcwidth_cjk(ucs: u32) -> (r: Option<usize>)
    ensures
        r == spec_wcwidth_cjk(ucs),
{
    let ambiguous = ambiguous_table();
    if bisearch(ucs, &ambiguous) {
        return Some(2);
    }
    wcwidth(ucs)
}

/// Every width is at most two cells.
proof fn lemma_wcwidth_le2(ucs: u32)
    ensures
        spec_wcwidth(ucs) matches Some(w) ==> w <= 2,
        spec_wcwidth_cjk(ucs) matches Some(w) ==> w <= 2,
{
}

/// Total width of the `n` consecutive code points from `pwcs` on; a
/// code point of zero, like a control character, ends the count.
pub open spec fn spec_wcswidth(pwcs: u32, n: usize, cjk: bool) -> Option<int>
    decreases n,
{
    if pwcs == 0 || n == 0 {
        Some(0)
    } else {
        let w = if cjk {
            spec_wcwidth_cjk(pwcs)
        } else {
            spec_wcwidth(pwcs)
        };
        match w {
            None => None,
            Some(w0) => if pwcs < u32::MAX {
                match spec_wcswidth((pwcs + 1) as u32, (n - 1) as usize, cjk) {
                    None => None,
                    Some(rest) => Some(w0 + rest),
                }
            } else {
                Some(w0 as int)
            },
        }
    }
}

/// Total width of `n` consecutive code points.
#[verifier::loop_isolation(false)]
pub fn wcswidth(pwcs: u32, n: usize) -> (r: Option<usize>)
    requires
        n <= usize::MAX / 2,
        n <= u32::MAX - pwcs,
    ensures
        match r {
            Some(w) => spec_wcswidth(pwcs, n, false) == Some(w as int),
            None => spec_wcswidth(pwcs, n, false) is None,
        },
{
    let mut cur = pwcs;
    let mut left = n;
    let mut width: usize = 0;
    while cur > 0 && left > 0
        invariant
            left <= n,
            cur <= u32::MAX - left,
            width <= 2 * (n - left),
            ({
                let whole = spec_wcswidth(pwcs, n, false);
                let rest = spec_wcswidth(cur, left, false);
                match rest {
                    Some(w2) => whole == Some(width + w2),
                    None => whole is None,
                }
            }),
        decreases left,
    {
        match wcwidth(cur) {
            Some(w) => {
                proof {
                    lemma_wcwidth_le2(cur);
                }
                width = width + w;
            },
            None => {
                return None;
            },
        }
        cur = cur + 1;
        left = left - 1;
    }
    Some(width)
}

/// Total width of `n` consecutive code points, CJK variant.
#[verifier::loop_isolation(false)]
pub fn wcswidth_cjk(pwcs: u32, n: u32) -> (r: Option<usize>)
    requires
        n <= u32::MAX - pwcs,
        n as usize <= usize::MAX / 2,
    ensures
        match r {
            Some(w) => spec_wcswidth(pwcs, n as usize, true) == Some(w as int),
            None => spec_wcswidth(pwcs, n as usize, true) is None,
        },
{
    let mut cur = pwcs;
    let mut left = n;
    let mut width: usize = 0;
    while cur > 0 && left > 0
        invariant
            left <= n,
            cur <= u32::MAX - left,
            width <= 2 * ((n - left) as usize),
            ({
                let whole = spec_wcswidth(pwcs, n as usize, true);
                let rest = spec_wcswidth(cur, left as usize, true);
                match rest {
                    Some(w2) => whole == Some(width + w2),
                    None => whole is None,
                }
            }),
        decreases left,
    {
        match wcwidth_cjk(cur) {
            Some(w) => {
                proof {
                    lemma_wcwidth_le2(cur);
                }
                width = width + w;
            },
            None => {
                return None;
            },
        }
        cur = cur + 1;
        left = left - 1;
    }
    Some(width)
}

/// What one UTF-8 step decodes to: the code point and the bytes taken.
/// Truncated input yields `None`.
pub open spec fn spec_cp_next(s: Seq<u8>) -> Option<(u32, int)> {
    if s.len() == 0 {
        None
    } else if s[0] & 0x80 == 0 {
        Some((s[0] as u32, 1))
    } else if s[0] & 0xE0 == 0xC0 {
        if s.len() >= 2 {
            Some((((((s[0] & 0x1F) as u32) << 6) + ((s[1] & 0x7F) as u32)) as u32, 2))
        } else {
            None
        }
    } else if s[0] & 0xF0 == 0xE0 {
        if s.len() >= 3 {
            Some(
                (
                    ((((s[0] & 0x07) as u32) << 12) + (((s[1] & 0x3F) as u32) << 6) + ((s[2]
                        & 0x3F) as u32)) as u32,
                    3,
                ),
            )
        } else {
            None
        }
    } else {
        if s.len() >= 4 {
            Some(
                (
                    ((((s[0] & 0x07) as u32) << 18) + (((s[1] & 0x3F) as u32) << 12) + (((s[2]
                        & 0x3F) as u32) << 6) + ((s[3] & 0x3F) as u32)) as u32,
                    4,
                ),
            )
        } else {
            None
        }
    }
}

/// Walks the code points of a byte buffer.
pub struct CodePointsIterator<'a> {
    pub rest: &'a [u8],
}

impl<'a> CodePointsIterator<'a> {
    /// The next code point, consuming its bytes.
    #[verifier::rlimit(60)]
    pub fn next(&mut self) -> (r: Option<u32>)
        ensures
            match spec_cp_next(old(self).rest@) {
                Some((c, k)) => r == Some(c) && final(self).rest@ == old(self).rest@.subrange(
                    k,
                    old(self).rest@.len() as int,
                ),
                None => r is None && final(self).rest@ == old(self).rest@,
            },
    {
        let n = self.rest.len();
        if n == 0 {
            return None;
        }
        let b0 = self.rest[0];
        if b0 & 0x80 == 0 {
            self.rest = &self.rest[1..n];
            return Some(b0 as u32);
        }
        if b0 & 0xE0 == 0xC0 {
            if n < 2 {
                return None;
            }
            let b1 = self.rest[1];
            proof {
                assert((((b0 & 0x1F) as u32) << 6u32) + ((b1 & 0x7F) as u32) <= 0xFFFFu32)
                    by (bit_vector);
            }
            let c = (((b0 & 0x1F) as u32) << 6u32) + ((b1 & 0x7F) as u32);
            self.rest = &self.rest[2..n];
            return Some(c);
        }
        if b0 & 0xF0 == 0xE0 {
            if n < 3 {
                return None;
            }
            let b1 = self.rest[1];
            let b2 = self.rest[2];
            proof {
                assert((((b0 & 0x07) as u32) << 12u32) + (((b1 & 0x3F) as u32) << 6u32) + ((b2
                    & 0x3F) as u32) <= 0xFFFFFu32) by (bit_vector);
            }
            let c = (((b0 & 0x07) as u32) << 12u32) + (((b1 & 0x3F) as u32) << 6u32) + ((b2
                & 0x3F) as u32);
            self.rest = &self.rest[3..n];
            return Some(c);
        }
        if n < 4 {
            return None;
        }
        let b1 = self.rest[1];
        let b2 = self.rest[2];
        let b3 = self.rest[3];
        proof {
            assert((((b0 & 0x07) as u32) << 18u32) + (((b1 & 0x3F) as u32) << 12u32) + (((b2
                & 0x3F) as u32) << 6u32) + ((b3 & 0x3F) as u32) <= 0xFFFFFFu32) by (bit_vector);
        }
        let c = (((b0 & 0x07) as u32) << 18u32) + (((b1 & 0x3F) as u32) << 12u32) + (((b2
            & 0x3F) as u32) << 6u32) + ((b3 & 0x3F) as u32);
        self.rest = &self.rest[4..n];
        Some(c)
    }
}

/// All code points of a buffer, in order.
pub open spec fn spec_code_points(s: Seq<u8>) -> Seq<u32>
    decreases s.len(),
{
    match spec_cp_next(s) {
        None => Seq::empty(),
        Some((c, k)) => if 0 < k <= s.len() {
            seq![c] + spec_code_points(s.subrange(k, s.len() as int))
        } else {
            seq![c]
        },
    }
}

/// Decode all code points of a buffer.
#[verifier::loop_isolation(false)]
pub fn code_points(s: &[u8]) -> (r: Vec<u32>)
    ensures
        r@ == spec_code_points(s@),
{
    let mut it = CodePointsIterator { rest: s };
    let mut out: Vec<u32> = Vec::new();
    loop
        invariant
            out@ + spec_code_points(it.rest@) =~= spec_code_points(s@),
        decreases it.rest@.len(),
    {
        let ghost before = it.rest@;
        match it.next() {
            None => {
                proof {
                    assert(spec_code_points(before) =~= Seq::<u32>::empty());
                    assert(out@ =~= spec_code_points(s@));
                }
                return out;
            },
            Some(c) => {
                out.push(c);
            },
        }
    }
}

} // verus!
