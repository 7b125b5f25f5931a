//! Recovering candidate strings for a given lazy hash.
//!
//! The search enumerates strings of printable bytes (32 to 128) whose polynomial value in
//! base 47 may reach the hash, pruning each position by the range of values the remaining
//! positions can add, and trying again for each time the hash may have wrapped past 2^48.

use vstd::prelude::*;
use vstd::string::{StrSliceExecFns, StringSliceAdditionalSpecFns};
use crate::text::push_char;
use crate::hasher::{spec_lazy_hash, HASH_MODULUS};

verus! {

/// Smallest byte the search tries.
pub const MIN_CHAR: u8 = 32;

/// Largest byte the search tries.
pub const MAX_CHAR: u8 = 128;

/// Largest value a hash can take (2^48 - 1).
pub const MAX_SIZE: u64 = 0xFFFF_FFFF_FFFF;

/// The search tries the hash plus each multiple of this value (2^49).
pub const OVERFLOW_CANCEL: u64 = 2 * MAX_SIZE + 2;

/// `2^64`, the modulus of wrapping `u64` arithmetic.
pub open spec fn word() -> int {
    0x1_0000_0000_0000_0000
}

/// The largest value the hash of a string of `k` bytes could take without reduction,
/// computed with wrapping multiplication: `h(k) = h(k - 1) * 47 mod 2^64 + 128`.
pub open spec fn spec_highest_hash(k: nat) -> int
    decreases k,
{
    if k == 0 {
        0
    } else {
        (spec_highest_hash((k - 1) as nat) * 47) % word() + MAX_CHAR
    }
}

/// How many times `MAX_SIZE` can be taken from `h` while more than `MAX_SIZE` is left.
pub open spec fn spec_overflow_count(h: int) -> int {
    if h <= MAX_SIZE {
        0
    } else {
        (h - 1) / (MAX_SIZE as int)
    }
}

/// The values of `spec_highest_hash` for every byte length, step by step.
proof fn lemma_highest_hash_values()
    ensures
        spec_highest_hash(0) == 0,
        spec_highest_hash(1) == 128,
        spec_highest_hash(2) == 6144,
        spec_highest_hash(3) == 288896,
        spec_highest_hash(4) == 13578240,
        spec_highest_hash(5) == 638177408,
        spec_highest_hash(6) == 29994338304,
        spec_highest_hash(7) == 1409733900416,
        spec_highest_hash(8) == 66257493319680,
        spec_highest_hash(9) == 3114102186025088,
        spec_highest_hash(10) == 146362802743179264,
        spec_highest_hash(11) == 6879051728929425536,
        spec_highest_hash(12) == 9720782006620622848,
        spec_highest_hash(13) == 14154896542140035200,
        spec_highest_hash(14) == 1197350827037796352,
        spec_highest_hash(15) == 935256649647773824,
        spec_highest_hash(16) == 7063574386026266624,
        spec_highest_hash(17) == 18393346890172153984,
        spec_highest_hash(18) == 15937076447451863040,
        spec_highest_hash(19) == 11172830081855498368,
        spec_highest_hash(20) == 8614179783340978176,
        spec_highest_hash(21) == 17484824269125390464,
        spec_highest_hash(22) == 10130001405673080832,
        spec_highest_hash(23) == 14941464223896008832,
        spec_highest_hash(24) == 1272543722149453824,
        spec_highest_hash(25) == 4469322719895675008,
        spec_highest_hash(26) == 7143983024291657728,
        spec_highest_hash(27) == 3725808814935984256,
        spec_highest_hash(28) == 9092317638605295616,
        spec_highest_hash(29) == 3063815319129206912,
        spec_highest_hash(30) == 14872111483105863680,
        spec_highest_hash(31) == 16459708978722183296,
        spec_highest_hash(32) == 17289814977850998784,
        spec_highest_hash(33) == 964564715776671872,
        spec_highest_hash(34) == 8441053494084474880,
        spec_highest_hash(35) == 9347888674069735552,
        spec_highest_hash(36) == 15075653985957883904,
        spec_highest_hash(37) == 7579462539057582208,
        spec_highest_hash(38) == 5746601935224883200,
        spec_highest_hash(39) == 11835873923635787904,
        spec_highest_hash(40) == 2883752199595483136,
        spec_highest_hash(41) == 6409144865020846208,
        spec_highest_hash(42) == 6081903476626946048,
        spec_highest_hash(43) == 9148302295823190144,
        spec_highest_hash(44) == 5695094208370249728,
        spec_highest_hash(45) == 9415010761468014720,
        spec_highest_hash(46) == 18230392093677004800,
        spec_highest_hash(47) == 8278201012179851392,
        spec_highest_hash(48) == 1693822024552431616,
        spec_highest_hash(49) == 5822658859126079616,
        spec_highest_hash(50) == 15410549346992019456,
        spec_highest_hash(51) == 4872800433952401536,
        spec_highest_hash(52) == 7660691511248252928,
        spec_highest_hash(53) == 9564363628186407040,
        spec_highest_hash(54) == 6803232755731892224,
        spec_highest_hash(55) == 6157290266336557184,
        spec_highest_hash(56) == 12691481412174913536,
        spec_highest_hash(57) == 6203816013515284608,
        spec_highest_hash(58) == 14878191529575102464,
        spec_highest_hash(59) == 16745471162776406144,
        spec_highest_hash(60) == 12273893554689921024,
        spec_highest_hash(61) == 5023930785430188160,
        spec_highest_hash(62) == 14763818030704224256,
        spec_highest_hash(63) == 11369916715845130368,
        spec_highest_hash(64) == 17877251580853682176,
        spec_highest_hash(65) == 10127340983193239680,
        spec_highest_hash(66) == 14816424367343474688,
        spec_highest_hash(67) == 13842414537889900672,
        spec_highest_hash(68) == 4957440700991025152,
        spec_highest_hash(69) == 11638784062063562880,
        spec_highest_hash(70) == 12067272779410458624,
        spec_highest_hash(71) == 13759498421005006976,
        spec_highest_hash(72) == 1060383207401021440,
        spec_highest_hash(73) == 12944522600428904576,
        spec_highest_hash(74) == 18096751861452863488,
        spec_highest_hash(75) == 1997110097645209728,
        spec_highest_hash(76) == 1630454220777099264,
        spec_highest_hash(77) == 2844372081685459072,
        spec_highest_hash(78) == 4558279323249715200,
        spec_highest_hash(79) == 11324943381931546752,
        spec_highest_hash(80) == 15763504886915252224,
        spec_highest_hash(81) == 3014966736634790016,
        spec_highest_hash(82) == 12576228105868269568,
        spec_highest_hash(83) == 786910617103018112,
        spec_highest_hash(84) == 91310856422748160,
        spec_highest_hash(85) == 4291610251869163648,
        spec_highest_hash(86) == 17238241100755175424,
        spec_highest_hash(87) == 16987336565982525568,
        spec_highest_hash(88) == 5194823431667982336,
        spec_highest_hash(89) == 4349028330170998912,
        spec_highest_hash(90) == 1490146707231881216,
        spec_highest_hash(91) == 14696663018769762432,
        spec_highest_hash(92) == 8213631154925424640,
        spec_highest_hash(93) == 17105782807303925888,
        spec_highest_hash(94) == 10761796773773797376,
        spec_highest_hash(95) == 7742358377210583168,
        spec_highest_hash(96) == 13402706328415928320,
        spec_highest_hash(97) == 2737898929423876224,
        spec_highest_hash(98) == 18000785240664872960,
        spec_highest_hash(99) == 15933422994319206528,
        spec_highest_hash(100) == 11001117784620642304,
        spec_highest_hash(101) == 543701813302743168,
        spec_highest_hash(102) == 7107241151519377408,
        spec_highest_hash(103) == 1998940794638809216,
        spec_highest_hash(104) == 1716496979476275200,
        spec_highest_hash(105) == 6888381740546728064,
        spec_highest_hash(106) == 10159292552633841664,
        spec_highest_hash(107) == 16318148131051767936,
        spec_highest_hash(108) == 10636455137341476864,
        spec_highest_hash(109) == 1851301464891519104,
        spec_highest_hash(110) == 13224192555063191552,
        spec_highest_hash(111) == 12794495655554799744,
        spec_highest_hash(112) == 11045485452369936384,
        spec_highest_hash(113) == 2628982197519564928,
        spec_highest_hash(114) == 12881698841162242048,
        spec_highest_hash(115) == 15144035175919724672,
        spec_highest_hash(116) == 10793378467264098304,
        spec_highest_hash(117) == 9226697971254726784,
        spec_highest_hash(118) == 9379690953652471808,
        spec_highest_hash(119) == 16570361126346487936,
        spec_highest_hash(120) == 4043721842483765248,
        spec_highest_hash(121) == 5587485859641450624,
        spec_highest_hash(122) == 4357418371214456832,
        spec_highest_hash(123) == 1884478636274403456,
        spec_highest_hash(124) == 14783519610058756096,
        spec_highest_hash(125) == 12295890945508126848,
        spec_highest_hash(126) == 6057808153885861888,
        spec_highest_hash(127) == 8015822126992234624,
        spec_highest_hash(128) == 7808758494443995136,
        spec_highest_hash(129) == 16523511838386290816,
        spec_highest_hash(130) == 1841805308354500608,
        spec_highest_hash(131) == 12777873197823322240,
        spec_highest_hash(132) == 10264229938990493696,
        spec_highest_hash(133) == 2803461216104861824,
        spec_highest_hash(134) == 2635468640961644544,
        spec_highest_hash(135) == 13186561682939984000,
        spec_highest_hash(136) == 11025844665764044800,
        spec_highest_hash(137) == 1705865227042660480,
        spec_highest_hash(138) == 6388689376166836224,
        spec_highest_hash(139) == 5120495500488476800,
        spec_highest_hash(140) == 855615564734238720,
        spec_highest_hash(141) == 3320443395090116736,
        spec_highest_hash(142) == 8486886979559073792,
        spec_highest_hash(143) == 11502062491375884416,
        spec_highest_hash(144) == 5641358957089570816,
        spec_highest_hash(145) == 6889453951276105856,
        spec_highest_hash(146) == 10209686456914597888,
        spec_highest_hash(147) == 239917558537758848,
        spec_highest_hash(148) == 11276125251274665984,
        spec_highest_hash(149) == 13469052746041856128,
        spec_highest_hash(150) == 5856180557842483200,
        spec_highest_hash(151) == 16986069186662987904,
        spec_highest_hash(152) == 5135256603649712128,
        spec_highest_hash(153) == 1549387413312299136,
        spec_highest_hash(154) == 17480976204549404672,
        spec_highest_hash(155) == 9949142370601748608,
        spec_highest_hash(156) == 6441089575543394304,
        spec_highest_hash(157) == 7583304871186706560,
        spec_highest_hash(158) == 5927191545293727744,
        spec_highest_hash(159) == 1876841523161929856,
        spec_highest_hash(160) == 14424575293772496896,
        spec_highest_hash(161) == 13872252153763496064,
        spec_highest_hash(162) == 6359808647050008576,
        spec_highest_hash(163) == 3763101231997577344,
        spec_highest_hash(164) == 10845061240500170752,
        spec_highest_hash(165) == 11655788313350131840,
        spec_highest_hash(166) == 12866472589879199744,
        spec_highest_hash(167) == 14428401365616736384,
        spec_highest_hash(168) == 14052077530442752000,
        spec_highest_hash(169) == 14811601350975037568,
        spec_highest_hash(170) == 13615732768573356032,
        spec_highest_hash(171) == 12750141616822978688,
        spec_highest_hash(172) == 8960845631974346752,
        spec_highest_hash(173) == 15331375081184161920,
        spec_highest_hash(174) == 1151609940983097344,
        spec_highest_hash(175) == 17232179078786472064,
        spec_highest_hash(176) == 16702421533453467648,
        spec_highest_hash(177) == 10250560976511811712,
        spec_highest_hash(178) == 2161019979606808576,
        spec_highest_hash(179) == 9334218672972245120,
        spec_highest_hash(180) == 14433163934375833600,
        spec_highest_hash(181) == 14275918262120321152,
        spec_highest_hash(182) == 6885371666111236096,
        spec_highest_hash(183) == 10017819054165719168,
        spec_highest_hash(184) == 9668893703050010624,
        spec_highest_hash(185) == 11716146274321260672,
        spec_highest_hash(186) == 15703296755522254848,
        spec_highest_hash(187) == 185184561163913344,
        spec_highest_hash(188) == 8703674374703927296,
        spec_highest_hash(189) == 3244325989474447488,
        spec_highest_hash(190) == 4909368915622619136,
        spec_highest_hash(191) == 9379410149748480128,
        spec_highest_hash(192) == 16557163342858878976,
        spec_highest_hash(193) == 3423426018566144128,
        spec_highest_hash(194) == 13327070282932361216,
        spec_highest_hash(195) == 17629748865405773952,
        spec_highest_hash(196) == 16941457430851104768,
        spec_highest_hash(197) == 3038504080491204736,
        spec_highest_hash(198) == 13682483267119761408,
        spec_highest_hash(199) == 15887415048504031360,
        spec_highest_hash(200) == 8838744331307409408,
        spec_highest_hash(201) == 9592613949838106752,
        spec_highest_hash(202) == 8130997873361778688,
        spec_highest_hash(203) == 13222018573812566144,
        spec_highest_hash(204) == 12692318536775405568,
        spec_highest_hash(205) == 6243160869738410112,
        spec_highest_hash(206) == 16727399772062001152,
        spec_highest_hash(207) == 11424538191112886400,
        spec_highest_hash(208) == 1997716844728664064,
        spec_highest_hash(209) == 1658971333699453056,
        spec_highest_hash(210) == 4184676389036087296,
        spec_highest_hash(211) == 12212349547600586880,
        spec_highest_hash(212) == 2131362452231483392,
        spec_highest_hash(213) == 7940314886331961472,
        spec_highest_hash(214) == 4259918183411156992,
        spec_highest_hash(215) == 15748713883228862592,
        spec_highest_hash(216) == 2319789563374477312,
        spec_highest_hash(217) == 16796389110052675712,
        spec_highest_hash(218) == 14667037076674590720,
        spec_highest_hash(219) == 6821211876452354176,
        spec_highest_hash(220) == 7002308940198268928,
        spec_highest_hash(221) == 15513870936256262272,
        spec_highest_hash(222) == 9728915129371813888,
        spec_highest_hash(223) == 14537153311446014080,
        spec_highest_hash(224) == 716674910709252096,
        spec_highest_hash(225) == 15236976729625297024,
        spec_highest_hash(226) == 15161631491425998848,
        spec_highest_hash(227) == 11620405296058984576,
        spec_highest_hash(228) == 11203470777195278336,
        spec_highest_hash(229) == 10054292464310636672,
        spec_highest_hash(230) == 11383143979861133312,
        spec_highest_hash(231) == 52188915896268928,
        spec_highest_hash(232) == 2452879047124639744,
        spec_highest_hash(233) == 4604850772600758400,
        spec_highest_hash(234) == 13513801501430577152,
        spec_highest_hash(235) == 7959372061112371328,
        spec_highest_hash(236) == 5155605398090420224,
        spec_highest_hash(237) == 2505780752025579648,
        spec_highest_hash(238) == 7091230902944933888,
        spec_highest_hash(239) == 1246459111639963776,
        spec_highest_hash(240) == 3243346025949642752,
        spec_highest_hash(241) == 4863310629956796544,
        spec_highest_hash(242) == 7214670723454818304,
        spec_highest_hash(243) == 7048130675604531328,
        spec_highest_hash(244) == 17667492500350595072,
        spec_highest_hash(245) == 268664199548145792,
        spec_highest_hash(246) == 12627217378762852352,
        spec_highest_hash(247) == 3183406443148408960,
        spec_highest_hash(248) == 2046150238298808320,
        spec_highest_hash(249) == 3935340831496233088,
        spec_highest_hash(250) == 493578343227439104,
        spec_highest_hash(251) == 4751438057980086400,
        spec_highest_hash(252) == 1956659840549441536,
        spec_highest_hash(253) == 18176036210985545856,
        spec_highest_hash(254) == 5723474525681281024,
        spec_highest_hash(255) == 10748885675086485632,
{
    assert(spec_highest_hash(0) == 0);
    assert(spec_highest_hash(1) == 128);
    assert(spec_highest_hash(2) == 6144);
    assert(spec_highest_hash(3) == 288896);
    assert(spec_highest_hash(4) == 13578240);
    assert(spec_highest_hash(5) == 638177408);
    assert(spec_highest_hash(6) == 29994338304);
    assert(spec_highest_hash(7) == 1409733900416);
    assert(spec_highest_hash(8) == 66257493319680);
    assert(spec_highest_hash(9) == 3114102186025088);
    assert(spec_highest_hash(10) == 146362802743179264);
    assert(spec_highest_hash(11) == 6879051728929425536);
    assert(spec_highest_hash(12) == 9720782006620622848);
    assert(spec_highest_hash(13) == 14154896542140035200);
    assert(spec_highest_hash(14) == 1197350827037796352);
    assert(spec_highest_hash(15) == 935256649647773824);
    assert(spec_highest_hash(16) == 7063574386026266624);
    assert(spec_highest_hash(17) == 18393346890172153984);
    assert(spec_highest_hash(18) == 15937076447451863040);
    assert(spec_highest_hash(19) == 11172830081855498368);
    assert(spec_highest_hash(20) == 8614179783340978176);
    assert(spec_highest_hash(21) == 17484824269125390464);
    assert(spec_highest_hash(22) == 10130001405673080832);
    assert(spec_highest_hash(23) == 14941464223896008832);
    assert(spec_highest_hash(24) == 1272543722149453824);
    assert(spec_highest_hash(25) == 4469322719895675008);
    assert(spec_highest_hash(26) == 7143983024291657728);
    assert(spec_highest_hash(27) == 3725808814935984256);
    assert(spec_highest_hash(28) == 9092317638605295616);
    assert(spec_highest_hash(29) == 3063815319129206912);
    assert(spec_highest_hash(30) == 14872111483105863680);
    assert(spec_highest_hash(31) == 16459708978722183296);
    assert(spec_highest_hash(32) == 17289814977850998784);
    assert(spec_highest_hash(33) == 964564715776671872);
    assert(spec_highest_hash(34) == 8441053494084474880);
    assert(spec_highest_hash(35) == 9347888674069735552);
    assert(spec_highest_hash(36) == 15075653985957883904);
    assert(spec_highest_hash(37) == 7579462539057582208);
    assert(spec_highest_hash(38) == 5746601935224883200);
    assert(spec_highest_hash(39) == 11835873923635787904);
    assert(spec_highest_hash(40) == 2883752199595483136);
    assert(spec_highest_hash(41) == 6409144865020846208);
    assert(spec_highest_hash(42) == 6081903476626946048);
    assert(spec_highest_hash(43) == 9148302295823190144);
    assert(spec_highest_hash(44) == 5695094208370249728);
    assert(spec_highest_hash(45) == 9415010761468014720);
    assert(spec_highest_hash(46) == 18230392093677004800);
    assert(spec_highest_hash(47) == 8278201012179851392);
    assert(spec_highest_hash(48) == 1693822024552431616);
    assert(spec_highest_hash(49) == 5822658859126079616);
    assert(spec_highest_hash(50) == 15410549346992019456);
    assert(spec_highest_hash(51) == 4872800433952401536);
    assert(spec_highest_hash(52) == 7660691511248252928);
    assert(spec_highest_hash(53) == 9564363628186407040);
    assert(spec_highest_hash(54) == 6803232755731892224);
    assert(spec_highest_hash(55) == 6157290266336557184);
    assert(spec_highest_hash(56) == 12691481412174913536);
    assert(spec_highest_hash(57) == 6203816013515284608);
    assert(spec_highest_hash(58) == 14878191529575102464);
    assert(spec_highest_hash(59) == 16745471162776406144);
    assert(spec_highest_hash(60) == 12273893554689921024);
    assert(spec_highest_hash(61) == 5023930785430188160);
    assert(spec_highest_hash(62) == 14763818030704224256);
    assert(spec_highest_hash(63) == 11369916715845130368);
    assert(spec_highest_hash(64) == 17877251580853682176);
    assert(spec_highest_hash(65) == 10127340983193239680);
    assert(spec_highest_hash(66) == 14816424367343474688);
    assert(spec_highest_hash(67) == 13842414537889900672);
    assert(spec_highest_hash(68) == 4957440700991025152);
    assert(spec_highest_hash(69) == 11638784062063562880);
    assert(spec_highest_hash(70) == 12067272779410458624);
    assert(spec_highest_hash(71) == 13759498421005006976);
    assert(spec_highest_hash(72) == 1060383207401021440);
    assert(spec_highest_hash(73) == 12944522600428904576);
    assert(spec_highest_hash(74) == 18096751861452863488);
    assert(spec_highest_hash(75) == 1997110097645209728);
    assert(spec_highest_hash(76) == 1630454220777099264);
    assert(spec_highest_hash(77) == 2844372081685459072);
    assert(spec_highest_hash(78) == 4558279323249715200);
    assert(spec_highest_hash(79) == 11324943381931546752);
    assert(spec_highest_hash(80) == 15763504886915252224);
    assert(spec_highest_hash(81) == 3014966736634790016);
    assert(spec_highest_hash(82) == 12576228105868269568);
    assert(spec_highest_hash(83) == 786910617103018112);
    assert(spec_highest_hash(84) == 91310856422748160);
    assert(spec_highest_hash(85) == 4291610251869163648);
    assert(spec_highest_hash(86) == 17238241100755175424);
    assert(spec_highest_hash(87) == 16987336565982525568);
    assert(spec_highest_hash(88) == 5194823431667982336);
    assert(spec_highest_hash(89) == 4349028330170998912);
    assert(spec_highest_hash(90) == 1490146707231881216);
    assert(spec_highest_hash(91) == 14696663018769762432);
    assert(spec_highest_hash(92) == 8213631154925424640);
    assert(spec_highest_hash(93) == 17105782807303925888);
    assert(spec_highest_hash(94) == 10761796773773797376);
    assert(spec_highest_hash(95) == 7742358377210583168);
    assert(spec_highest_hash(96) == 13402706328415928320);
    assert(spec_highest_hash(97) == 2737898929423876224);
    assert(spec_highest_hash(98) == 18000785240664872960);
    assert(spec_highest_hash(99) == 15933422994319206528);
    assert(spec_highest_hash(100) == 11001117784620642304);
    assert(spec_highest_hash(101) == 543701813302743168);
    assert(spec_highest_hash(102) == 7107241151519377408);
    assert(spec_highest_hash(103) == 1998940794638809216);
    assert(spec_highest_hash(104) == 1716496979476275200);
    assert(spec_highest_hash(105) == 6888381740546728064);
    assert(spec_highest_hash(106) == 10159292552633841664);
    assert(spec_highest_hash(107) == 16318148131051767936);
    assert(spec_highest_hash(108) == 10636455137341476864);
    assert(spec_highest_hash(109) == 1851301464891519104);
    assert(spec_highest_hash(110) == 13224192555063191552);
    assert(spec_highest_hash(111) == 12794495655554799744);
    assert(spec_highest_hash(112) == 11045485452369936384);
    assert(spec_highest_hash(113) == 2628982197519564928);
    assert(spec_highest_hash(114) == 12881698841162242048);
    assert(spec_highest_hash(115) == 15144035175919724672);
    assert(spec_highest_hash(116) == 10793378467264098304);
    assert(spec_highest_hash(117) == 9226697971254726784);
    assert(spec_highest_hash(118) == 9379690953652471808);
    assert(spec_highest_hash(119) == 16570361126346487936);
    assert(spec_highest_hash(120) == 4043721842483765248);
    assert(spec_highest_hash(121) == 5587485859641450624);
    assert(spec_highest_hash(122) == 4357418371214456832);
    assert(spec_highest_hash(123) == 1884478636274403456);
    assert(spec_highest_hash(124) == 14783519610058756096);
    assert(spec_highest_hash(125) == 12295890945508126848);
    assert(spec_highest_hash(126) == 6057808153885861888);
    assert(spec_highest_hash(127) == 8015822126992234624);
    assert(spec_highest_hash(128) == 7808758494443995136);
    assert(spec_highest_hash(129) == 16523511838386290816);
    assert(spec_highest_hash(130) == 1841805308354500608);
    assert(spec_highest_hash(131) == 12777873197823322240);
    assert(spec_highest_hash(132) == 10264229938990493696);
    assert(spec_highest_hash(133) == 2803461216104861824);
    assert(spec_highest_hash(134) == 2635468640961644544);
    assert(spec_highest_hash(135) == 13186561682939984000);
    assert(spec_highest_hash(136) == 11025844665764044800);
    assert(spec_highest_hash(137) == 1705865227042660480);
    assert(spec_highest_hash(138) == 6388689376166836224);
    assert(spec_highest_hash(139) == 5120495500488476800);
    assert(spec_highest_hash(140) == 855615564734238720);
    assert(spec_highest_hash(141) == 3320443395090116736);
    assert(spec_highest_hash(142) == 8486886979559073792);
    assert(spec_highest_hash(143) == 11502062491375884416);
    assert(spec_highest_hash(144) == 5641358957089570816);
    assert(spec_highest_hash(145) == 6889453951276105856);
    assert(spec_highest_hash(146) == 10209686456914597888);
    assert(spec_highest_hash(147) == 239917558537758848);
    assert(spec_highest_hash(148) == 11276125251274665984);
    assert(spec_highest_hash(149) == 13469052746041856128);
    assert(spec_highest_hash(150) == 5856180557842483200);
    assert(spec_highest_hash(151) == 16986069186662987904);
    assert(spec_highest_hash(152) == 5135256603649712128);
    assert(spec_highest_hash(153) == 1549387413312299136);
    assert(spec_highest_hash(154) == 17480976204549404672);
    assert(spec_highest_hash(155) == 9949142370601748608);
    assert(spec_highest_hash(156) == 6441089575543394304);
    assert(spec_highest_hash(157) == 7583304871186706560);
    assert(spec_highest_hash(158) == 5927191545293727744);
    assert(spec_highest_hash(159) == 1876841523161929856);
    assert(spec_highest_hash(160) == 14424575293772496896);
    assert(spec_highest_hash(161) == 13872252153763496064);
    assert(spec_highest_hash(162) == 6359808647050008576);
    assert(spec_highest_hash(163) == 3763101231997577344);
    assert(spec_highest_hash(164) == 10845061240500170752);
    assert(spec_highest_hash(165) == 11655788313350131840);
    assert(spec_highest_hash(166) == 12866472589879199744);
    assert(spec_highest_hash(167) == 14428401365616736384);
    assert(spec_highest_hash(168) == 14052077530442752000);
    assert(spec_highest_hash(169) == 14811601350975037568);
    assert(spec_highest_hash(170) == 13615732768573356032);
    assert(spec_highest_hash(171) == 12750141616822978688);
    assert(spec_highest_hash(172) == 8960845631974346752);
    assert(spec_highest_hash(173) == 15331375081184161920);
    assert(spec_highest_hash(174) == 1151609940983097344);
    assert(spec_highest_hash(175) == 17232179078786472064);
    assert(spec_highest_hash(176) == 16702421533453467648);
    assert(spec_highest_hash(177) == 10250560976511811712);
    assert(spec_highest_hash(178) == 2161019979606808576);
    assert(spec_highest_hash(179) == 9334218672972245120);
    assert(spec_highest_hash(180) == 14433163934375833600);
    assert(spec_highest_hash(181) == 14275918262120321152);
    assert(spec_highest_hash(182) == 6885371666111236096);
    assert(spec_highest_hash(183) == 10017819054165719168);
    assert(spec_highest_hash(184) == 9668893703050010624);
    assert(spec_highest_hash(185) == 11716146274321260672);
    assert(spec_highest_hash(186) == 15703296755522254848);
    assert(spec_highest_hash(187) == 185184561163913344);
    assert(spec_highest_hash(188) == 8703674374703927296);
    assert(spec_highest_hash(189) == 3244325989474447488);
    assert(spec_highest_hash(190) == 4909368915622619136);
    assert(spec_highest_hash(191) == 9379410149748480128);
    assert(spec_highest_hash(192) == 16557163342858878976);
    assert(spec_highest_hash(193) == 3423426018566144128);
    assert(spec_highest_hash(194) == 13327070282932361216);
    assert(spec_highest_hash(195) == 17629748865405773952);
    assert(spec_highest_hash(196) == 16941457430851104768);
    assert(spec_highest_hash(197) == 3038504080491204736);
    assert(spec_highest_hash(198) == 13682483267119761408);
    assert(spec_highest_hash(199) == 15887415048504031360);
    assert(spec_highest_hash(200) == 8838744331307409408);
    assert(spec_highest_hash(201) == 9592613949838106752);
    assert(spec_highest_hash(202) == 8130997873361778688);
    assert(spec_highest_hash(203) == 13222018573812566144);
    assert(spec_highest_hash(204) == 12692318536775405568);
    assert(spec_highest_hash(205) == 6243160869738410112);
    assert(spec_highest_hash(206) == 16727399772062001152);
    assert(spec_highest_hash(207) == 11424538191112886400);
    assert(spec_highest_hash(208) == 1997716844728664064);
    assert(spec_highest_hash(209) == 1658971333699453056);
    assert(spec_highest_hash(210) == 4184676389036087296);
    assert(spec_highest_hash(211) == 12212349547600586880);
    assert(spec_highest_hash(212) == 2131362452231483392);
    assert(spec_highest_hash(213) == 7940314886331961472);
    assert(spec_highest_hash(214) == 4259918183411156992);
    assert(spec_highest_hash(215) == 15748713883228862592);
    assert(spec_highest_hash(216) == 2319789563374477312);
    assert(spec_highest_hash(217) == 16796389110052675712);
    assert(spec_highest_hash(218) == 14667037076674590720);
    assert(spec_highest_hash(219) == 6821211876452354176);
    assert(spec_highest_hash(220) == 7002308940198268928);
    assert(spec_highest_hash(221) == 15513870936256262272);
    assert(spec_highest_hash(222) == 9728915129371813888);
    assert(spec_highest_hash(223) == 14537153311446014080);
    assert(spec_highest_hash(224) == 716674910709252096);
    assert(spec_highest_hash(225) == 15236976729625297024);
    assert(spec_highest_hash(226) == 15161631491425998848);
    assert(spec_highest_hash(227) == 11620405296058984576);
    assert(spec_highest_hash(228) == 11203470777195278336);
    assert(spec_highest_hash(229) == 10054292464310636672);
    assert(spec_highest_hash(230) == 11383143979861133312);
    assert(spec_highest_hash(231) == 52188915896268928);
    assert(spec_highest_hash(232) == 2452879047124639744);
    assert(spec_highest_hash(233) == 4604850772600758400);
    assert(spec_highest_hash(234) == 13513801501430577152);
    assert(spec_highest_hash(235) == 7959372061112371328);
    assert(spec_highest_hash(236) == 5155605398090420224);
    assert(spec_highest_hash(237) == 2505780752025579648);
    assert(spec_highest_hash(238) == 7091230902944933888);
    assert(spec_highest_hash(239) == 1246459111639963776);
    assert(spec_highest_hash(240) == 3243346025949642752);
    assert(spec_highest_hash(241) == 4863310629956796544);
    assert(spec_highest_hash(242) == 7214670723454818304);
    assert(spec_highest_hash(243) == 7048130675604531328);
    assert(spec_highest_hash(244) == 17667492500350595072);
    assert(spec_highest_hash(245) == 268664199548145792);
    assert(spec_highest_hash(246) == 12627217378762852352);
    assert(spec_highest_hash(247) == 3183406443148408960);
    assert(spec_highest_hash(248) == 2046150238298808320);
    assert(spec_highest_hash(249) == 3935340831496233088);
    assert(spec_highest_hash(250) == 493578343227439104);
    assert(spec_highest_hash(251) == 4751438057980086400);
    assert(spec_highest_hash(252) == 1956659840549441536);
    assert(spec_highest_hash(253) == 18176036210985545856);
    assert(spec_highest_hash(254) == 5723474525681281024);
    assert(spec_highest_hash(255) == 10748885675086485632);
}

/// `spec_highest_hash` stays within `u64`, and so does its next step.
proof fn lemma_highest_hash_fits(k: nat)
    requires
        k <= 255,
    ensures
        0 <= spec_highest_hash(k) <= u64::MAX,
        k < 255 ==> (spec_highest_hash(k) * 47) % word() + MAX_CHAR <= u64::MAX,
{
    lemma_highest_hash_values();
    if k == 0 {
    } else if k == 1 {
    } else if k == 2 {
    } else if k == 3 {
    } else if k == 4 {
    } else if k == 5 {
    } else if k == 6 {
    } else if k == 7 {
    } else if k == 8 {
    } else if k == 9 {
    } else if k == 10 {
    } else if k == 11 {
    } else if k == 12 {
    } else if k == 13 {
    } else if k == 14 {
    } else if k == 15 {
    } else if k == 16 {
    } else if k == 17 {
    } else if k == 18 {
    } else if k == 19 {
    } else if k == 20 {
    } else if k == 21 {
    } else if k == 22 {
    } else if k == 23 {
    } else if k == 24 {
    } else if k == 25 {
    } else if k == 26 {
    } else if k == 27 {
    } else if k == 28 {
    } else if k == 29 {
    } else if k == 30 {
    } else if k == 31 {
    } else if k == 32 {
    } else if k == 33 {
    } else if k == 34 {
    } else if k == 35 {
    } else if k == 36 {
    } else if k == 37 {
    } else if k == 38 {
    } else if k == 39 {
    } else if k == 40 {
    } else if k == 41 {
    } else if k == 42 {
    } else if k == 43 {
    } else if k == 44 {
    } else if k == 45 {
    } else if k == 46 {
    } else if k == 47 {
    } else if k == 48 {
    } else if k == 49 {
    } else if k == 50 {
    } else if k == 51 {
    } else if k == 52 {
    } else if k == 53 {
    } else if k == 54 {
    } else if k == 55 {
    } else if k == 56 {
    } else if k == 57 {
    } else if k == 58 {
    } else if k == 59 {
    } else if k == 60 {
    } else if k == 61 {
    } else if k == 62 {
    } else if k == 63 {
    } else if k == 64 {
    } else if k == 65 {
    } else if k == 66 {
    } else if k == 67 {
    } else if k == 68 {
    } else if k == 69 {
    } else if k == 70 {
    } else if k == 71 {
    } else if k == 72 {
    } else if k == 73 {
    } else if k == 74 {
    } else if k == 75 {
    } else if k == 76 {
    } else if k == 77 {
    } else if k == 78 {
    } else if k == 79 {
    } else if k == 80 {
    } else if k == 81 {
    } else if k == 82 {
    } else if k == 83 {
    } else if k == 84 {
    } else if k == 85 {
    } else if k == 86 {
    } else if k == 87 {
    } else if k == 88 {
    } else if k == 89 {
    } else if k == 90 {
    } else if k == 91 {
    } else if k == 92 {
    } else if k == 93 {
    } else if k == 94 {
    } else if k == 95 {
    } else if k == 96 {
    } else if k == 97 {
    } else if k == 98 {
    } else if k == 99 {
    } else if k == 100 {
    } else if k == 101 {
    } else if k == 102 {
    } else if k == 103 {
    } else if k == 104 {
    } else if k == 105 {
    } else if k == 106 {
    } else if k == 107 {
    } else if k == 108 {
    } else if k == 109 {
    } else if k == 110 {
    } else if k == 111 {
    } else if k == 112 {
    } else if k == 113 {
    } else if k == 114 {
    } else if k == 115 {
    } else if k == 116 {
    } else if k == 117 {
    } else if k == 118 {
    } else if k == 119 {
    } else if k == 120 {
    } else if k == 121 {
    } else if k == 122 {
    } else if k == 123 {
    } else if k == 124 {
    } else if k == 125 {
    } else if k == 126 {
    } else if k == 127 {
    } else if k == 128 {
    } else if k == 129 {
    } else if k == 130 {
    } else if k == 131 {
    } else if k == 132 {
    } else if k == 133 {
    } else if k == 134 {
    } else if k == 135 {
    } else if k == 136 {
    } else if k == 137 {
    } else if k == 138 {
    } else if k == 139 {
    } else if k == 140 {
    } else if k == 141 {
    } else if k == 142 {
    } else if k == 143 {
    } else if k == 144 {
    } else if k == 145 {
    } else if k == 146 {
    } else if k == 147 {
    } else if k == 148 {
    } else if k == 149 {
    } else if k == 150 {
    } else if k == 151 {
    } else if k == 152 {
    } else if k == 153 {
    } else if k == 154 {
    } else if k == 155 {
    } else if k == 156 {
    } else if k == 157 {
    } else if k == 158 {
    } else if k == 159 {
    } else if k == 160 {
    } else if k == 161 {
    } else if k == 162 {
    } else if k == 163 {
    } else if k == 164 {
    } else if k == 165 {
    } else if k == 166 {
    } else if k == 167 {
    } else if k == 168 {
    } else if k == 169 {
    } else if k == 170 {
    } else if k == 171 {
    } else if k == 172 {
    } else if k == 173 {
    } else if k == 174 {
    } else if k == 175 {
    } else if k == 176 {
    } else if k == 177 {
    } else if k == 178 {
    } else if k == 179 {
    } else if k == 180 {
    } else if k == 181 {
    } else if k == 182 {
    } else if k == 183 {
    } else if k == 184 {
    } else if k == 185 {
    } else if k == 186 {
    } else if k == 187 {
    } else if k == 188 {
    } else if k == 189 {
    } else if k == 190 {
    } else if k == 191 {
    } else if k == 192 {
    } else if k == 193 {
    } else if k == 194 {
    } else if k == 195 {
    } else if k == 196 {
    } else if k == 197 {
    } else if k == 198 {
    } else if k == 199 {
    } else if k == 200 {
    } else if k == 201 {
    } else if k == 202 {
    } else if k == 203 {
    } else if k == 204 {
    } else if k == 205 {
    } else if k == 206 {
    } else if k == 207 {
    } else if k == 208 {
    } else if k == 209 {
    } else if k == 210 {
    } else if k == 211 {
    } else if k == 212 {
    } else if k == 213 {
    } else if k == 214 {
    } else if k == 215 {
    } else if k == 216 {
    } else if k == 217 {
    } else if k == 218 {
    } else if k == 219 {
    } else if k == 220 {
    } else if k == 221 {
    } else if k == 222 {
    } else if k == 223 {
    } else if k == 224 {
    } else if k == 225 {
    } else if k == 226 {
    } else if k == 227 {
    } else if k == 228 {
    } else if k == 229 {
    } else if k == 230 {
    } else if k == 231 {
    } else if k == 232 {
    } else if k == 233 {
    } else if k == 234 {
    } else if k == 235 {
    } else if k == 236 {
    } else if k == 237 {
    } else if k == 238 {
    } else if k == 239 {
    } else if k == 240 {
    } else if k == 241 {
    } else if k == 242 {
    } else if k == 243 {
    } else if k == 244 {
    } else if k == 245 {
    } else if k == 246 {
    } else if k == 247 {
    } else if k == 248 {
    } else if k == 249 {
    } else if k == 250 {
    } else if k == 251 {
    } else if k == 252 {
    } else if k == 253 {
    } else if k == 254 {
    } else if k == 255 {
    }
}

/// The number of times the hash of a `size`-byte string may have wrapped past `MAX_SIZE`.
pub fn calculate_overflow_frequency(size: u8) -> (count: u64)
    ensures
        count == spec_overflow_count(spec_highest_hash(size as nat)),
{
    let mut highest_hash: u64 = 0;
    let mut overflow_count: u64 = 0;
    for k in 0..size
        invariant
            highest_hash == spec_highest_hash(k as nat),
    {
        proof {
            lemma_highest_hash_fits(k as nat);
        }
        highest_hash = (highest_hash.wrapping_mul(47)) + MAX_CHAR as u64;
    }
    let ghost start = highest_hash as int;
    while highest_hash > MAX_SIZE
        invariant
            overflow_count + spec_overflow_count(highest_hash as int) == spec_overflow_count(start),
            spec_overflow_count(start) <= 0x1_0001,
        decreases highest_hash,
    {
        highest_hash -= MAX_SIZE;
        overflow_count = overflow_count.wrapping_add(1);
    }
    overflow_count
}

/// Each byte as the character with that code (Latin-1).
pub open spec fn latin1(bytes: Seq<u8>) -> Seq<char> {
    bytes.map_values(|b: u8| b as char)
}

/// The UTF-8 bytes of `input`.
pub fn from_string_to_vec(input: &str) -> (v: Vec<u8>)
    ensures
        v@ == input.spec_bytes(),
{
    input.as_bytes_vec()
}

/// The first `size` bytes of `input`, each as the character with that code.
pub fn print_string(input: &Vec<u8>, size: u8) -> (output: String)
    requires
        size <= input.len(),
    ensures
        output@ == latin1(input@.take(size as int)),
{
    let mut output: String = String::new();
    for i in 0..size
        invariant
            size <= input.len(),
            output@ == latin1(input@.take(i as int)),
    {
        push_char(&mut output, input[i as usize] as char);
        assert(output@ =~= latin1(input@.take(i + 1)));
    }
    output
}

/// `47^e`.
pub open spec fn power47(e: nat) -> nat
    decreases e,
{
    if e == 0 {
        1
    } else {
        47 * power47((e - 1) as nat)
    }
}

/// `1 + 47 + ... + 47^(e - 1)`.
pub open spec fn geo47(e: nat) -> nat
    decreases e,
{
    if e == 0 {
        0
    } else {
        geo47((e - 1) as nat) + power47((e - 1) as nat)
    }
}

/// `x` reduced modulo `2^64`, as wrapping `u64` arithmetic leaves it.
pub open spec fn wrap(x: int) -> int {
    x % word()
}

/// `47^e` fits in a `u128` when `e <= 23`; it is odd and grows with `e`.
proof fn lemma_power47_bounds(e: nat)
    ensures
        power47(e) >= 1,
        power47(e) % 2 == 1,
        e <= 23 ==> power47(e) <= power47(23),
        power47(10) == 52599132235830049,
        power47(12) == 116191483108948578241,
        power47(23) == 287243845682065590744605010781602099023,
    decreases e,
{
    assert(power47(0) == 1);
    assert(power47(1) == 47);
    assert(power47(2) == 2209);
    assert(power47(3) == 103823);
    assert(power47(4) == 4879681);
    assert(power47(5) == 229345007);
    assert(power47(6) == 10779215329);
    assert(power47(7) == 506623120463);
    assert(power47(8) == 23811286661761);
    assert(power47(9) == 1119130473102767);
    assert(power47(10) == 52599132235830049);
    assert(power47(11) == 2472159215084012303);
    assert(power47(12) == 116191483108948578241);
    assert(power47(13) == 5460999706120583177327);
    assert(power47(14) == 256666986187667409334369);
    assert(power47(15) == 12063348350820368238715343);
    assert(power47(16) == 566977372488557307219621121);
    assert(power47(17) == 26647936506962193439322192687);
    assert(power47(18) == 1252453015827223091648143056289);
    assert(power47(19) == 58865291743879485307462723645583);
    assert(power47(20) == 2766668711962335809450748011342401);
    assert(power47(21) == 130033429462229783044185156533092847);
    assert(power47(22) == 6111571184724799803076702357055363809);
    assert(power47(23) == 287243845682065590744605010781602099023);
    if e > 0 {
        lemma_power47_bounds((e - 1) as nat);
    }
}

/// `47^e`, computed in a `u128`.
fn pow47(e: u8) -> (r: u128)
    requires
        e <= 23,
    ensures
        r == power47(e as nat),
{
    let mut r: u128 = 1;
    let mut k: u8 = 0;
    while k < e
        invariant
            k <= e <= 23,
            r == power47(k as nat),
        decreases e - k,
    {
        proof {
            lemma_power47_bounds((k + 1) as nat);
        }
        r = r * 47;
        k = k + 1;
    }
    r
}

/// `c * (1 + 47 + ... + 47^(e - 1))`, reduced modulo `2^64`: the most (or least, for
/// `c = MIN_CHAR`) that `e` further bytes equal to `c` add to a hash.
pub open spec fn addend(c: int, e: nat) -> int {
    wrap(c * geo47(e))
}

/// One more term of the wrapped sum.
proof fn lemma_addend_step(c: int, g: int, p: int)
    requires
        c >= 0,
        g >= 0,
        p >= 0,
    ensures
        wrap(wrap(c * g) + wrap(c * wrap(p))) == wrap(c * (g + p)),
{
    vstd::arithmetic::div_mod::lemma_mul_mod_noop_right(c, p, word());
    vstd::arithmetic::div_mod::lemma_add_mod_noop(c * g, c * p, word());
    vstd::arithmetic::div_mod::lemma_mod_twice(c * wrap(p), word());
    assert(c * (g + p) == c * g + c * p) by (nonlinear_arith);
}

/// The least and most that `e` further bytes in `MIN_CHAR..=MAX_CHAR` add to a hash,
/// with wrapping arithmetic: `(addend(MIN_CHAR, e), addend(MAX_CHAR, e))`.
fn addends(e: u8) -> (r: (u64, u64))
    requires
        e <= 23,
    ensures
        r.0 == addend(MIN_CHAR as int, e as nat),
        r.1 == addend(MAX_CHAR as int, e as nat),
{
    let mut min_addend = 0u64;
    let mut max_addend = 0u64;
    let mut i: u8 = e;
    while i > 0
        invariant
            i <= e <= 23,
            min_addend == wrap(MIN_CHAR * (geo47(e as nat) - geo47(i as nat))),
            max_addend == wrap(MAX_CHAR * (geo47(e as nat) - geo47(i as nat))),
            geo47(e as nat) - geo47(i as nat) >= 0,
        decreases i,
    {
        i = i - 1;
        let full = pow47(i);
        let multiplier: u64 = full as u64;
        proof {
            assert(multiplier == full % 0x1_0000_0000_0000_0000) by (bit_vector)
                requires multiplier == full as u64;
            let g = geo47(e as nat) - geo47((i + 1) as nat);
            let p = power47(i as nat) as int;
            assert(geo47((i + 1) as nat) == geo47(i as nat) + p);
            lemma_addend_step(MIN_CHAR as int, g, p);
            lemma_addend_step(MAX_CHAR as int, g, p);
            assert(g + p == geo47(e as nat) - geo47(i as nat));
        }
        min_addend = min_addend.wrapping_add((MIN_CHAR as u64).wrapping_mul(multiplier));
        max_addend = max_addend.wrapping_add((MAX_CHAR as u64).wrapping_mul(multiplier));
    }
    (min_addend, max_addend)
}

/// The multiplier of the byte at position `d` of `n + 1`: `47^(n - d)` modulo `2^64`.
pub open spec fn position_multiplier(n: nat, d: nat) -> int {
    wrap(power47((n - d) as nat) as int)
}

/// The range of bytes worth trying at position `d` (before the last) when the bytes before
/// it add up to `cur`: the quotients by the multiplier of the wrapped differences between
/// `h - cur` and the most and the least the remaining bytes can add, each modulo 256.
#[verifier::opaque]
pub open spec fn byte_range(n: nat, h: int, d: nat, cur: int) -> (int, int) {
    let e = (n - d) as nat;
    let m = position_multiplier(n, d);
    (
        (wrap(h - cur - addend(MAX_CHAR as int, e)) / m) % 256,
        (wrap(h - cur - addend(MIN_CHAR as int, e)) / m) % 256,
    )
}

/// The first byte the search tries at position `d`.
pub open spec fn first_byte(n: nat, h: int, d: nat, cur: int) -> int {
    if d >= n {
        0
    } else {
        byte_range(n, h, d, cur).0
    }
}

/// The last byte: the low byte of `h - cur`, wrapped.
pub open spec fn last_byte(h: int, cur: int) -> int {
    wrap(h - cur) % 256
}

/// What the search finds, in the order it finds them, trying bytes from `i` on at position
/// `d` of strings of `n + 1` bytes, with the bytes chosen so far in `buf` (whose first `d`
/// bytes add up, times their powers of 47, to `cur`), aiming at `h`; whether it runs to
/// its end (`false` where an arithmetic step overflows or a byte would be written past the
/// end of `buf`, after the strings found before that step); and the buffer it leaves.
///
/// At the last position the one byte tried is the low byte of the remaining difference,
/// kept when printable. Before it, with more than thirty positions left nothing is found,
/// and with more than twenty-three `47^(n - d)` overflows a `u128`; otherwise the bytes of
/// `byte_range` are tried in turn, when both its ends lie in `MIN_CHAR..=MAX_CHAR`. Each
/// byte tried is written at position `d` of the buffer before its continuations are
/// searched.
#[verifier::opaque]
pub open spec fn explore(n: nat, h: int, d: nat, cur: int, buf: Seq<u8>, i: int) -> (Seq<Seq<u8>>, bool, Seq<u8>)
    decreases n - d, 257 - i,
{
    if d >= n {
        let last = last_byte(h, cur);
        if last < MIN_CHAR || last > MAX_CHAR {
            (Seq::empty(), true, buf)
        } else if n >= buf.len() || n + 1 > u8::MAX {
            (Seq::empty(), false, buf)
        } else {
            (seq![buf.take(n as int).push(last as u8)], true, buf.update(n as int, last as u8))
        }
    } else if n - d > 30 {
        (Seq::empty(), true, buf)
    } else if n - d > 23 {
        (Seq::empty(), false, buf)
    } else if byte_range(n, h, d, cur).0 < MIN_CHAR || byte_range(n, h, d, cur).1 > MAX_CHAR {
        (Seq::empty(), true, buf)
    } else if i > byte_range(n, h, d, cur).1 || i < 0 {
        (Seq::empty(), true, buf)
    } else if d >= buf.len() || cur + i * position_multiplier(n, d) > u64::MAX {
        (Seq::empty(), false, buf)
    } else {
        let next = cur + i * position_multiplier(n, d);
        let first = explore(n, h, d + 1, next, buf.update(d as int, i as u8), first_byte(n, h, d + 1, next));
        if first.1 {
            let rest = explore(n, h, d, cur, first.2, i + 1);
            (first.0 + rest.0, rest.1, rest.2)
        } else {
            first
        }
    }
}

/// The search at the last position keeps the printable low byte of the difference.
proof fn lemma_explore_last(n: nat, h: int, d: nat, cur: int, buf: Seq<u8>, i: int)
    requires
        d >= n,
    ensures
        explore(n, h, d, cur, buf, i) == (if last_byte(h, cur) < MIN_CHAR || last_byte(h, cur) > MAX_CHAR {
            (Seq::<Seq<u8>>::empty(), true, buf)
        } else if n >= buf.len() || n + 1 > u8::MAX {
            (Seq::<Seq<u8>>::empty(), false, buf)
        } else {
            (seq![buf.take(n as int).push(last_byte(h, cur) as u8)], true, buf.update(n as int, last_byte(h, cur) as u8))
        }),
{
    reveal(explore);
}

/// Before the last position, the search finds nothing with more than thirty positions
/// left, stops between twenty-four and thirty, and finds nothing when the byte range is
/// out of bounds or all tried; in each case the buffer is left as it was.
proof fn lemma_explore_nothing(n: nat, h: int, d: nat, cur: int, buf: Seq<u8>, i: int)
    requires
        d < n,
    ensures
        n - d > 30 ==> explore(n, h, d, cur, buf, i) == (Seq::<Seq<u8>>::empty(), true, buf),
        23 < n - d <= 30 ==> explore(n, h, d, cur, buf, i) == (Seq::<Seq<u8>>::empty(), false, buf),
        n - d <= 23 && (byte_range(n, h, d, cur).0 < MIN_CHAR || byte_range(n, h, d, cur).1 > MAX_CHAR)
            ==> explore(n, h, d, cur, buf, i) == (Seq::<Seq<u8>>::empty(), true, buf),
        n - d <= 23 && (i > byte_range(n, h, d, cur).1 || i < 0)
            ==> explore(n, h, d, cur, buf, i) == (Seq::<Seq<u8>>::empty(), true, buf),
{
    reveal(explore);
}

/// Trying byte `i` at position `d`: write it, search its continuations, then the bytes
/// after it from the buffer those leave.
proof fn lemma_explore_step(n: nat, h: int, d: nat, cur: int, buf: Seq<u8>, i: int)
    requires
        d < n,
        n - d <= 23,
        MIN_CHAR <= byte_range(n, h, d, cur).0,
        byte_range(n, h, d, cur).1 <= MAX_CHAR,
        0 <= i <= byte_range(n, h, d, cur).1,
    ensures
        d >= buf.len() || cur + i * position_multiplier(n, d) > u64::MAX
            ==> explore(n, h, d, cur, buf, i) == (Seq::<Seq<u8>>::empty(), false, buf),
        d < buf.len() && cur + i * position_multiplier(n, d) <= u64::MAX ==> ({
            let next = cur + i * position_multiplier(n, d);
            let first = explore(n, h, d + 1, next, buf.update(d as int, i as u8), first_byte(n, h, d + 1, next));
            let rest = explore(n, h, d, cur, first.2, i + 1);
            explore(n, h, d, cur, buf, i) == if first.1 {
                (first.0 + rest.0, rest.1, rest.2)
            } else {
                first
            }
        }),
{
    reveal(explore);
}

/// The search keeps the buffer's length, and writes only positions `d..=n`.
pub proof fn lemma_explore_frame(n: nat, h: int, d: nat, cur: int, buf: Seq<u8>, i: int)
    requires
        d <= n,
    ensures
        explore(n, h, d, cur, buf, i).2.len() == buf.len(),
        forall|j: int| 0 <= j < buf.len() && (j < d || j > n)
            ==> #[trigger] explore(n, h, d, cur, buf, i).2[j] == buf[j],
    decreases n - d, 257 - i,
{
    let r = explore(n, h, d, cur, buf, i);
    if d >= n {
        lemma_explore_last(n, h, d, cur, buf, i);
    } else {
        lemma_explore_nothing(n, h, d, cur, buf, i);
        let (lo, hi) = byte_range(n, h, d, cur);
        if n - d <= 23 && MIN_CHAR <= lo && hi <= MAX_CHAR && 0 <= i <= hi {
            lemma_explore_step(n, h, d, cur, buf, i);
            let m = position_multiplier(n, d);
            if d < buf.len() && cur + i * m <= u64::MAX {
                let next = cur + i * m;
                let b1 = buf.update(d as int, i as u8);
                lemma_explore_frame(n, h, d + 1, next, b1, first_byte(n, h, d + 1, next));
                let first = explore(n, h, d + 1, next, b1, first_byte(n, h, d + 1, next));
                lemma_explore_frame(n, h, d, cur, first.2, i + 1);
                let rest = explore(n, h, d, cur, first.2, i + 1);
                if first.1 {
                    assert(r.2 == rest.2);
                } else {
                    assert(r.2 == first.2);
                }
                assert forall|j: int| 0 <= j < buf.len() && (j < d || j > n) implies #[trigger] r.2[j] == buf[j] by {
                    assert(b1[j] == buf[j]);
                    assert(first.2[j] == b1[j]);
                }
            }
        }
    }
}

/// What the search finds from position `d`, whether it runs to its end, and the buffer it
/// leaves.
pub open spec fn search(n: nat, h: int, d: nat, cur: int, buf: Seq<u8>) -> (Seq<Seq<u8>>, bool, Seq<u8>) {
    explore(n, h, d, cur, buf, first_byte(n, h, d, cur))
}

/// The strings of `cands`, each as characters.
pub open spec fn latin1_all(cands: Seq<Seq<u8>>) -> Seq<Seq<char>> {
    cands.map_values(|c: Seq<u8>| latin1(c))
}

/// Searches for strings of `max_depth + 1` printable bytes that may hash to `hash`, with
/// the first `current_depth` bytes already in `current_string` and adding up to
/// `current_hash`; appends each one found to `found`, as its characters. Each byte tried
/// is written into `current_string` at its position. Returns `false` when an arithmetic
/// step would overflow or a byte would be written past the end of `current_string`: the
/// search stops there, with what it found before.
pub fn recursive_search(
    max_depth: u8,
    hash: u64,
    current_depth: u8,
    current_hash: u64,
    current_string: &mut Vec<u8>,
    found: &mut Vec<String>,
) -> (completed: bool)
    requires
        current_depth <= max_depth,
    ensures
        ({
            let r = search(max_depth as nat, hash as int, current_depth as nat, current_hash as int,
                old(current_string)@);
            &&& final(found).deep_view() == old(found).deep_view() + latin1_all(r.0)
            &&& completed == r.1
            &&& final(current_string)@ == r.2
        }),
        final(current_string).len() == old(current_string).len(),
        forall|j: int| 0 <= j < old(current_string).len() && (j < current_depth || j > max_depth)
            ==> #[trigger] final(current_string)@[j] == old(current_string)@[j],
        max_depth - current_depth > 30 ==> final(current_string)@ == old(current_string)@
            && final(found).deep_view() == old(found).deep_view() && completed,
    decreases max_depth - current_depth, 2int,
{
    proof {
        lemma_explore_frame(max_depth as nat, hash as int, current_depth as nat, current_hash as int,
            current_string@, first_byte(max_depth as nat, hash as int, current_depth as nat, current_hash as int));
        if current_depth < max_depth {
            lemma_explore_nothing(max_depth as nat, hash as int, current_depth as nat, current_hash as int,
                current_string@, first_byte(max_depth as nat, hash as int, current_depth as nat, current_hash as int));
        }
    }
    let completed = if current_depth == max_depth {
        search_last(max_depth, hash, current_depth, current_hash, current_string, found)
    } else {
        search_position(max_depth, hash, current_depth, current_hash, current_string, found)
    };
    proof {
        if max_depth - current_depth > 30 {
            assert(latin1_all(Seq::<Seq<u8>>::empty()) =~= Seq::<Seq<char>>::empty());
            assert(found.deep_view() =~= old(found).deep_view());
        }
    }
    completed
}

/// The search at the last position.
fn search_last(
    max_depth: u8,
    hash: u64,
    current_depth: u8,
    current_hash: u64,
    current_string: &mut Vec<u8>,
    found: &mut Vec<String>,
) -> (completed: bool)
    requires
        current_depth == max_depth,
    ensures
        ({
            let r = search(max_depth as nat, hash as int, current_depth as nat, current_hash as int,
                old(current_string)@);
            &&& final(found).deep_view() == old(found).deep_view() + latin1_all(r.0)
            &&& completed == r.1
            &&& final(current_string)@ == r.2
        }),
{
    let ghost buf = current_string@;
    let ghost result = search(max_depth as nat, hash as int, current_depth as nat, current_hash as int, buf);
    proof {
        lemma_explore_last(max_depth as nat, hash as int, current_depth as nat, current_hash as int, buf, 0);
    }
    let difference = hash.wrapping_sub(current_hash);
    let last_char: u8 = difference as u8;
    proof {
        assert(last_char == difference % 256) by (bit_vector)
            requires last_char == difference as u8;
    }
    if last_char < MIN_CHAR || last_char > MAX_CHAR {
        assert(found.deep_view() =~= old(found).deep_view() + latin1_all(result.0));
        return true;
    }
    if max_depth == u8::MAX || current_depth as usize >= current_string.len() {
        assert(found.deep_view() =~= old(found).deep_view() + latin1_all(result.0));
        return false;
    }
    current_string.set(current_depth as usize, last_char);
    let candidate = print_string(current_string, max_depth + 1);
    let ghost before = found.deep_view();
    found.push(candidate);
    proof {
        assert(current_string@.take(max_depth + 1) =~= buf.take(max_depth as int).push(last_char));
        assert(found.deep_view() =~= before + latin1_all(result.0));
    }
    true
}

/// `47^e` modulo `2^64`, as the search computes it (`47u128.pow(e) as u64`); it is odd.
fn multiplier_for(e: u8) -> (m: u64)
    requires
        e <= 23,
    ensures
        m == wrap(power47(e as nat) as int),
        m % 2 == 1,
{
    let full = pow47(e);
    let m: u64 = full as u64;
    proof {
        assert(m == full % 0x1_0000_0000_0000_0000) by (bit_vector)
            requires m == full as u64;
        lemma_power47_bounds(e as nat);
        vstd::arithmetic::div_mod::lemma_mod_mod(full as int, 2, 0x8000_0000_0000_0000);
    }
    m
}

/// The low byte of the quotient by `m` of `hash - cur - add`, wrapped.
fn range_byte(hash: u64, cur: u64, add: u64, m: u64) -> (b: u8)
    requires
        m > 0,
    ensures
        b == (wrap(hash - cur - add) / (m as int)) % 256,
{
    let gap = hash.wrapping_sub(cur).wrapping_sub(add);
    let quotient = gap / m;
    let b: u8 = quotient as u8;
    proof {
        assert(b == quotient % 256) by (bit_vector)
            requires b == quotient as u8;
        assert(gap == wrap(hash - cur - add)) by {
            vstd::arithmetic::div_mod::lemma_add_mod_noop(hash - cur, 0 - add, word());
            vstd::arithmetic::div_mod::lemma_mod_twice(hash - cur, word());
        }
    }
    b
}

/// The search at a position before the last: works out the range of bytes worth trying,
/// then tries each in turn.
fn search_position(
    max_depth: u8,
    hash: u64,
    current_depth: u8,
    current_hash: u64,
    current_string: &mut Vec<u8>,
    found: &mut Vec<String>,
) -> (completed: bool)
    requires
        current_depth < max_depth,
    ensures
        ({
            let r = search(max_depth as nat, hash as int, current_depth as nat, current_hash as int,
                old(current_string)@);
            &&& final(found).deep_view() == old(found).deep_view() + latin1_all(r.0)
            &&& completed == r.1
            &&& final(current_string)@ == r.2
        }),
    decreases max_depth - current_depth, 1int,
{
    let ghost buf = current_string@;
    let ghost result = search(max_depth as nat, hash as int, current_depth as nat, current_hash as int, buf);
    proof {
        lemma_explore_nothing(max_depth as nat, hash as int, current_depth as nat, current_hash as int, buf,
            first_byte(max_depth as nat, hash as int, current_depth as nat, current_hash as int));
    }
    let current_exponent = max_depth - current_depth;
    if current_exponent > 30 {
        assert(found.deep_view() =~= old(found).deep_view() + latin1_all(result.0));
        return true;
    }
    if current_exponent > 23 {
        assert(found.deep_view() =~= old(found).deep_view() + latin1_all(result.0));
        return false;
    }
    let current_multiplier = multiplier_for(current_exponent);
    let (min_addend, max_addend) = addends(current_exponent);
    let current_min_char = range_byte(hash, current_hash, max_addend, current_multiplier);
    let current_max_char = range_byte(hash, current_hash, min_addend, current_multiplier);
    proof {
        assert(byte_range(max_depth as nat, hash as int, current_depth as nat, current_hash as int)
            == (current_min_char as int, current_max_char as int)) by {
            reveal(byte_range);
        }
    }
    if current_min_char < MIN_CHAR || current_max_char > MAX_CHAR {
        assert(found.deep_view() =~= old(found).deep_view() + latin1_all(result.0));
        return true;
    }
    try_bytes(max_depth, hash, current_depth, current_hash, current_multiplier, current_min_char, current_max_char,
        current_string, found)
}

/// Tries each byte of `current_min_char..=current_max_char` at position `current_depth`,
/// in order: writes it into `current_string`, then searches the strings that continue it.
fn try_bytes(
    max_depth: u8,
    hash: u64,
    current_depth: u8,
    current_hash: u64,
    current_multiplier: u64,
    current_min_char: u8,
    current_max_char: u8,
    current_string: &mut Vec<u8>,
    found: &mut Vec<String>,
) -> (completed: bool)
    requires
        current_depth < max_depth,
        max_depth - current_depth <= 23,
        current_multiplier == position_multiplier(max_depth as nat, current_depth as nat),
        current_multiplier > 0,
        byte_range(max_depth as nat, hash as int, current_depth as nat, current_hash as int)
            == (current_min_char as int, current_max_char as int),
        MIN_CHAR <= current_min_char,
        current_max_char <= MAX_CHAR,
    ensures
        ({
            let r = search(max_depth as nat, hash as int, current_depth as nat, current_hash as int,
                old(current_string)@);
            &&& final(found).deep_view() == old(found).deep_view() + latin1_all(r.0)
            &&& completed == r.1
            &&& final(current_string)@ == r.2
        }),
    decreases max_depth - current_depth, 0int,
{
    let ghost result = search(max_depth as nat, hash as int, current_depth as nat, current_hash as int, current_string@);
    let ghost m = current_multiplier as int;
    let ghost n = max_depth as nat;
    let ghost d = current_depth as nat;
    let ghost h = hash as int;
    let ghost cur = current_hash as int;
    let mut i: u8 = current_min_char;
    while i <= current_max_char
        invariant
            current_depth < max_depth,
            n == max_depth,
            d == current_depth,
            h == hash,
            cur == current_hash,
            m == current_multiplier,
            m == position_multiplier(n, d),
            current_multiplier > 0,
            n - d <= 23,
            byte_range(n, h, d, cur) == (current_min_char as int, current_max_char as int),
            MIN_CHAR <= current_min_char,
            current_min_char <= i,
            current_max_char <= MAX_CHAR,
            result == search(n, h, d, cur, old(current_string)@),
            ({
                let rest = explore(n, h, d, cur, current_string@, i as int);
                &&& old(found).deep_view() + latin1_all(result.0) == found.deep_view() + latin1_all(rest.0)
                &&& result.1 == rest.1
                &&& result.2 == rest.2
            }),
        decreases current_max_char + 1 - i,
    {
        let ghost buf = current_string@;
        let ghost rest = explore(n, h, d, cur, buf, i as int);
        proof {
            lemma_explore_step(n, h, d, cur, buf, i as int);
        }
        if current_depth as usize >= current_string.len() {
            proof {
                assert(found.deep_view() =~= old(found).deep_view() + latin1_all(result.0));
            }
            return false;
        }
        assert((i as int) * m < 0x1_0000_0000_0000_0000_00) by (nonlinear_arith)
            requires
                0 <= i < 256,
                0 <= m < 0x1_0000_0000_0000_0000,
        ;
        let wide: u128 = (current_hash as u128) + (i as u128) * (current_multiplier as u128);
        if wide > u64::MAX as u128 {
            proof {
                assert(found.deep_view() =~= old(found).deep_view() + latin1_all(result.0));
            }
            return false;
        }
        let next_hash: u64 = current_hash + (i as u64) * current_multiplier;
        current_string.set(current_depth as usize, i);
        let ghost child = explore(n, h, d + 1, next_hash as int, buf.update(d as int, i), first_byte(n, h, d + 1, next_hash as int));
        let ghost found_before = found.deep_view();
        let child_completed = recursive_search(max_depth, hash, current_depth + 1, next_hash, current_string, found);
        if !child_completed {
            proof {
                assert(found.deep_view() =~= old(found).deep_view() + latin1_all(result.0));
            }
            return false;
        }
        proof {
            let later = explore(n, h, d, cur, current_string@, i + 1);
            assert(latin1_all(rest.0) =~= latin1_all(child.0) + latin1_all(later.0));
            assert(found_before + latin1_all(rest.0) =~= found.deep_view() + latin1_all(later.0));
        }
        i = i + 1;
    }
    proof {
        lemma_explore_nothing(n, h, d, cur, current_string@, i as int);
        assert(found.deep_view() =~= old(found).deep_view() + latin1_all(result.0));
    }
    true
}

/// The hash the search aims at on try `index`: `hash` plus `index` times `OVERFLOW_CANCEL`,
/// the product wrapped to 64 bits.
pub open spec fn target(hash: int, index: int) -> int {
    hash + wrap(OVERFLOW_CANCEL * index)
}

/// How many extra tries a string of `size` bytes gets.
pub open spec fn tries(size: nat) -> int {
    spec_overflow_count(spec_highest_hash(size))
}

/// Two searches one after the other: the second runs only when the first ran to its end.
pub open spec fn followed_by(a: (Seq<Seq<u8>>, bool), b: (Seq<Seq<u8>>, bool)) -> (Seq<Seq<u8>>, bool) {
    if a.1 {
        (a.0 + b.0, b.1)
    } else {
        a
    }
}

/// `size` zero bytes: the buffer each try starts from.
pub open spec fn zero_bytes(size: nat) -> Seq<u8> {
    Seq::new(size, |k: int| 0u8)
}

/// What one try finds for strings of `size` bytes, aiming at `target(hash, index)`, and
/// whether it runs to its end (`false` also when the target overflows).
pub open spec fn try_result(hash: int, size: nat, index: int) -> (Seq<Seq<u8>>, bool) {
    if target(hash, index) > u64::MAX {
        (Seq::empty(), false)
    } else {
        let r = search((size - 1) as nat, target(hash, index), 0, 0, zero_bytes(size));
        (r.0, r.1)
    }
}

/// What is found for strings of `size` bytes on tries `index..=last`, in order, and
/// whether every try runs to its end.
pub open spec fn unhash_tries(hash: int, size: nat, index: int, last: int) -> (Seq<Seq<u8>>, bool)
    decreases last + 1 - index,
{
    if index > last {
        (Seq::empty(), true)
    } else {
        followed_by(try_result(hash, size, index), unhash_tries(hash, size, index + 1, last))
    }
}

/// What is found for every size from `size` to `max_size`, in order, and whether the
/// search runs to its end.
pub open spec fn unhash_sizes(hash: int, size: int, max_size: int) -> (Seq<Seq<u8>>, bool)
    decreases max_size + 1 - size,
{
    if size > max_size || size <= 0 {
        (Seq::empty(), true)
    } else {
        followed_by(
            unhash_tries(hash, size as nat, 0, tries(size as nat)),
            unhash_sizes(hash, size + 1, max_size),
        )
    }
}

/// `n` zero bytes.
fn zeros(n: u8) -> (v: Vec<u8>)
    ensures
        v@ == zero_bytes(n as nat),
{
    let mut v: Vec<u8> = Vec::new();
    for k in 0..n
        invariant
            v@ == zero_bytes(k as nat),
    {
        v.push(0);
        assert(v@ =~= zero_bytes((k + 1) as nat));
    }
    v
}

/// One try of the unhasher: searches the strings of `size` printable bytes that may hash
/// to `hash` plus `index` times 2^49 (the product wrapped to 64 bits), starting from a
/// buffer of zeros, and appends each one found to `found`, in order. Returns `false` when
/// the target or an arithmetic step of the search overflows: the try stops there, with
/// what it found before.
pub fn unhash_try(hash: u64, size: u8, index: u64, found: &mut Vec<String>) -> (completed: bool)
    requires
        size >= 1,
    ensures
        ({
            let r = try_result(hash as int, size as nat, index as int);
            &&& final(found).deep_view() == old(found).deep_view() + latin1_all(r.0)
            &&& completed == r.1
        }),
{
    let shift = OVERFLOW_CANCEL.wrapping_mul(index);
    if hash > u64::MAX - shift {
        assert(found.deep_view() =~= old(found).deep_view() + latin1_all(Seq::<Seq<u8>>::empty()));
        return false;
    }
    let aim: u64 = hash + shift;
    let mut collector: Vec<u8> = zeros(size);
    recursive_search(size - 1, aim, 0u8, 0u64, &mut collector, found)
}

/// Searches, for every size from `min_size` to `max_size` and for each number of times
/// the hash of a string of that size may have wrapped past 2^48, the strings of printable
/// bytes that may hash to `hash` plus that many times 2^49; appends each one found to
/// `found`, in order. Returns `false` when an arithmetic step would overflow: the search
/// stops there, with what it found before.
pub fn lazy_unhasher(hash: u64, min_size: u8, max_size: u8, found: &mut Vec<String>) -> (completed: bool)
    requires
        min_size > 0,
    ensures
        ({
            let r = unhash_sizes(hash as int, min_size as int, max_size as int);
            &&& final(found).deep_view() == old(found).deep_view() + latin1_all(r.0)
            &&& completed == r.1
        }),
{
    let ghost all = unhash_sizes(hash as int, min_size as int, max_size as int);
    let mut size: u16 = min_size as u16;
    while size <= max_size as u16
        invariant
            1 <= min_size as int <= size as int <= 256,
            all == unhash_sizes(hash as int, min_size as int, max_size as int),
            ({
                let rest = unhash_sizes(hash as int, size as int, max_size as int);
                &&& old(found).deep_view() + latin1_all(all.0) == found.deep_view() + latin1_all(rest.0)
                &&& all.1 == rest.1
            }),
        decreases max_size as int + 1 - size,
    {
        let ghost later = unhash_sizes(hash as int, size + 1, max_size as int);
        let overflow_freq: u64 = calculate_overflow_frequency(size as u8);
        let mut index: u64 = 0;
        while index <= overflow_freq
            invariant
                1 <= size <= 255,
                overflow_freq == tries(size as nat),
                overflow_freq <= 0x1_0001,
                index <= overflow_freq + 1,
                all == unhash_sizes(hash as int, min_size as int, max_size as int),
                later == unhash_sizes(hash as int, size + 1, max_size as int),
                ({
                    let tries_left = unhash_tries(hash as int, size as nat, index as int, overflow_freq as int);
                    &&& old(found).deep_view() + latin1_all(all.0) == found.deep_view() + latin1_all(followed_by(tries_left, later).0)
                    &&& all.1 == followed_by(tries_left, later).1
                }),
            decreases overflow_freq + 1 - index,
        {
            let ghost tries_here = unhash_tries(hash as int, size as nat, index as int, overflow_freq as int);
            let ghost tries_later = unhash_tries(hash as int, size as nat, index + 1, overflow_freq as int);
            let ghost one = try_result(hash as int, size as nat, index as int);
            let completed = unhash_try(hash, size as u8, index, found);
            if !completed {
                proof {
                    assert(tries_here == one);
                    assert(followed_by(tries_here, later) == one);
                    assert(found.deep_view() =~= old(found).deep_view() + latin1_all(all.0));
                }
                return false;
            }
            proof {
                assert(latin1_all(followed_by(tries_here, later).0) =~= latin1_all(one.0) + latin1_all(followed_by(tries_later, later).0));
            }
            index = index + 1;
        }
        size = size + 1;
    }
    assert(found.deep_view() =~= old(found).deep_view() + latin1_all(all.0));
    true
}

/// Every byte of `c` is in `MIN_CHAR..=MAX_CHAR`.
pub open spec fn printable(c: Seq<u8>) -> bool {
    forall|j: int| 0 <= j < c.len() ==> MIN_CHAR <= #[trigger] c[j] <= MAX_CHAR
}

/// The value of `c` read as a number in base 47, most significant byte first.
pub open spec fn poly47(c: Seq<u8>) -> int
    decreases c.len(),
{
    if c.len() == 0 {
        0
    } else {
        poly47(c.drop_last()) * 47 + c.last()
    }
}

/// The bytes of `prefix`, each times 47 to the power of its distance from position `n`.
pub open spec fn partial47(prefix: Seq<u8>, n: nat) -> int
    decreases prefix.len(),
{
    if prefix.len() == 0 {
        0
    } else {
        partial47(prefix.drop_last(), n) + prefix.last() * power47((n - (prefix.len() - 1)) as nat)
    }
}

/// A prefix of `n + 1 - k` bytes weighs `47^k` times its own base-47 value.
proof fn lemma_partial_is_scaled_poly(prefix: Seq<u8>, n: nat)
    requires
        prefix.len() <= n + 1,
    ensures
        partial47(prefix, n) == poly47(prefix) * power47((n + 1 - prefix.len()) as nat),
    decreases prefix.len(),
{
    if prefix.len() > 0 {
        let rest = prefix.drop_last();
        lemma_partial_is_scaled_poly(rest, n);
        let k = (n + 1 - prefix.len()) as nat;
        assert(power47((k + 1) as nat) == 47 * power47(k));
        let a = poly47(rest);
        let p = power47(k) as int;
        let b = prefix.last() as int;
        assert(a * (47 * p) + b * p == (a * 47 + b) * p) by (nonlinear_arith);
    }
}

/// The lazy hash of a string of bytes read as characters is its base-47 value mod 2^48.
pub proof fn lemma_lazy_hash_is_poly(c: Seq<u8>)
    ensures
        spec_lazy_hash(latin1(c)) == poly47(c) % (HASH_MODULUS as int),
    decreases c.len(),
{
    if c.len() > 0 {
        let rest = c.drop_last();
        assert(latin1(c).drop_last() =~= latin1(rest));
        lemma_lazy_hash_is_poly(rest);
        let m = HASH_MODULUS as int;
        let b = c.last();
        assert(latin1(c).last() == b as char);
        assert((b as char) as u8 == b);
        vstd::arithmetic::div_mod::lemma_mul_mod_noop_left(poly47(rest), 47, m);
        vstd::arithmetic::div_mod::lemma_add_mod_noop(poly47(rest) * 47, b as int, m);
        vstd::arithmetic::div_mod::lemma_add_mod_noop((poly47(rest) % m) * 47, b as int, m);
        vstd::arithmetic::div_mod::lemma_mod_twice(b as int, m);
    }
}

/// The string completed with the last byte: printable, with the right value mod 256.
proof fn lemma_last_byte_sound(n: nat, h: int, cur: int, prefix: Seq<u8>)
    requires
        prefix.len() == n,
        printable(prefix),
        cur == wrap(partial47(prefix, n)),
        MIN_CHAR <= last_byte(h, cur) <= MAX_CHAR,
    ensures
        ({
            let c = prefix.push(last_byte(h, cur) as u8);
            &&& c.len() == n + 1
            &&& printable(c)
            &&& poly47(c) % 256 == h % 256
        }),
{
    let last = last_byte(h, cur);
    let c = prefix.push(last as u8);
    assert(c.drop_last() =~= prefix);
    assert(power47(0) == 1);
    assert(c.last() == last);
    assert(partial47(c, n) == partial47(prefix, n) + last * power47(0));
    lemma_partial_is_scaled_poly(c, n);
    assert((n + 1 - c.len()) as nat == 0);
    assert(poly47(c) * power47(0) == poly47(c));
    lemma_low_byte_closes(partial47(prefix, n), cur, h);
    assert(printable(c));
}

/// Adding the low byte of `h - cur` to a value congruent to `cur` modulo `2^64` gives `h`
/// modulo 256.
proof fn lemma_low_byte_closes(a: int, cur: int, h: int)
    requires
        cur == wrap(a),
    ensures
        (a + wrap(h - cur) % 256) % 256 == h % 256,
{
    let w = word();
    vstd::arithmetic::div_mod::lemma_mod_mod(a, 256, 0x100_0000_0000_0000);
    vstd::arithmetic::div_mod::lemma_mod_mod(h - cur, 256, 0x100_0000_0000_0000);
    vstd::arithmetic::div_mod::lemma_add_mod_noop(a, (h - cur) % 256, 256);
    vstd::arithmetic::div_mod::lemma_mod_twice(h - cur, 256);
    vstd::arithmetic::div_mod::lemma_add_mod_noop(a, h - cur, 256);
    vstd::arithmetic::div_mod::lemma_add_mod_noop(cur, h - cur, 256);
    assert(a % 256 == cur % 256);
}

/// Choosing byte `i` at position `d` moves the partial value by `i * 47^(n - d)`.
proof fn lemma_next_partial(n: nat, d: nat, cur: int, prefix: Seq<u8>, i: int, next: int)
    requires
        d < n,
        prefix.len() == d,
        0 <= i < 256,
        cur == wrap(partial47(prefix, n)),
        next == cur + i * position_multiplier(n, d),
        next <= u64::MAX,
    ensures
        next == wrap(partial47(prefix.push(i as u8), n)),
{
    let child_prefix = prefix.push(i as u8);
    assert(child_prefix.drop_last() =~= prefix);
    assert(partial47(child_prefix, n) == partial47(prefix, n) + i * power47((n - d) as nat));
    let a = partial47(prefix, n);
    let p = power47((n - d) as nat) as int;
    let m = position_multiplier(n, d);
    vstd::arithmetic::div_mod::lemma_mul_mod_noop_right(i, p, word());
    vstd::arithmetic::div_mod::lemma_add_mod_noop(a, i * p, word());
    vstd::arithmetic::div_mod::lemma_mod_twice(a, word());
    vstd::arithmetic::div_mod::lemma_add_mod_noop(wrap(a), i * wrap(p), word());
    vstd::arithmetic::div_mod::lemma_mod_twice(i * p, word());
    assert(0 <= i * m) by (nonlinear_arith)
        requires i >= 0, m >= 0;
    vstd::arithmetic::div_mod::lemma_small_mod(next as nat, word() as nat);
}

/// What `explore` finds at a position is sound: for every string it reports, each byte is
/// printable and its base-47 value agrees with `h` modulo 256.
proof fn lemma_explore_sound(n: nat, h: int, d: nat, cur: int, buf: Seq<u8>, i: int)
    requires
        d <= n,
        d <= buf.len(),
        printable(buf.take(d as int)),
        cur == wrap(partial47(buf.take(d as int), n)),
        d < n ==> i >= first_byte(n, h, d, cur),
    ensures
        forall|k: int| 0 <= k < explore(n, h, d, cur, buf, i).0.len() ==> {
            let c = #[trigger] explore(n, h, d, cur, buf, i).0[k];
            &&& c.len() == n + 1
            &&& printable(c)
            &&& poly47(c) % 256 == h % 256
        },
    decreases n - d, 257 - i,
{
    let r = explore(n, h, d, cur, buf, i);
    if d >= n {
        lemma_explore_last(n, h, d, cur, buf, i);
        let last = last_byte(h, cur);
        if MIN_CHAR <= last <= MAX_CHAR && n < buf.len() && n + 1 <= u8::MAX {
            lemma_last_byte_sound(n, h, cur, buf.take(n as int));
            assert(r.0 == seq![buf.take(n as int).push(last as u8)]);
        }
    } else {
        lemma_explore_nothing(n, h, d, cur, buf, i);
        let (lo, hi) = byte_range(n, h, d, cur);
        if n - d <= 23 && MIN_CHAR <= lo && hi <= MAX_CHAR && 0 <= i <= hi {
            lemma_explore_step(n, h, d, cur, buf, i);
            let m = position_multiplier(n, d);
            if d < buf.len() && cur + i * m <= u64::MAX {
                let next = cur + i * m;
                let b1 = buf.update(d as int, i as u8);
                let prefix = buf.take(d as int);
                assert(b1.take(d + 1int) =~= prefix.push(i as u8));
                assert(prefix.push(i as u8).drop_last() =~= prefix);
                lemma_next_partial(n, d, cur, prefix, i, next);
                assert(printable(b1.take(d + 1int)));
                lemma_explore_sound(n, h, d + 1, next, b1, first_byte(n, h, d + 1, next));
                let first = explore(n, h, d + 1, next, b1, first_byte(n, h, d + 1, next));
                lemma_explore_frame(n, h, d + 1, next, b1, first_byte(n, h, d + 1, next));
                assert(first.2.take(d as int) =~= prefix);
                lemma_explore_sound(n, h, d, cur, first.2, i + 1);
                let rest = explore(n, h, d, cur, first.2, i + 1);
                assert forall|k: int| 0 <= k < r.0.len() implies {
                    let c = #[trigger] r.0[k];
                    &&& c.len() == n + 1
                    &&& printable(c)
                    &&& poly47(c) % 256 == h % 256
                } by {
                    if k < first.0.len() {
                        assert(r.0[k] == first.0[k]);
                    } else {
                        assert(r.0[k] == rest.0[k - first.0.len()]);
                    }
                }
            }
        }
    }
}

/// The string has `size` bytes, all printable, and a base-47 value equal to `hash`
/// modulo 256.
pub open spec fn sound_candidate(c: Seq<u8>, size: int, hash: int) -> bool {
    &&& c.len() == size
    &&& printable(c)
    &&& poly47(c) % 256 == hash % 256
}

/// Every try of `unhash_tries` reports sound strings of `size` bytes.
proof fn lemma_unhash_tries_sound(hash: int, size: nat, index: int, last: int)
    requires
        size >= 1,
        index >= 0,
    ensures
        forall|k: int| 0 <= k < unhash_tries(hash, size, index, last).0.len()
            ==> sound_candidate(#[trigger] unhash_tries(hash, size, index, last).0[k], size as int, hash),
    decreases last + 1 - index,
{
    let r = unhash_tries(hash, size, index, last);
    if index <= last {
        let one = try_result(hash, size, index);
        lemma_unhash_tries_sound(hash, size, index + 1, last);
        let rest = unhash_tries(hash, size, index + 1, last);
        if target(hash, index) <= u64::MAX {
            let h = target(hash, index);
            let n = (size - 1) as nat;
            assert(zero_bytes(size).take(0) =~= Seq::<u8>::empty());
            assert(partial47(Seq::<u8>::empty(), n) == 0);
            assert(0 == wrap(0));
            lemma_explore_sound(n, h, 0, 0, zero_bytes(size), first_byte(n, h, 0, 0));
            assert(wrap(OVERFLOW_CANCEL * index) % 256 == 0) by {
                vstd::arithmetic::div_mod::lemma_mod_mod(OVERFLOW_CANCEL * index, 256, 0x100_0000_0000_0000);
                assert(OVERFLOW_CANCEL * index == (0x2_0000_0000_0000 * index) / 256 * 256) by (nonlinear_arith)
                    requires OVERFLOW_CANCEL == 0x2_0000_0000_0000, index >= 0;
                vstd::arithmetic::div_mod::lemma_mod_multiples_basic((0x2_0000_0000_0000 * index) / 256, 256);
            }
            assert(h % 256 == hash % 256) by {
                vstd::arithmetic::div_mod::lemma_add_mod_noop(hash, wrap(OVERFLOW_CANCEL * index), 256);
                vstd::arithmetic::div_mod::lemma_mod_twice(hash, 256);
            }
        }
        assert forall|k: int| 0 <= k < r.0.len() implies sound_candidate(#[trigger] r.0[k], size as int, hash) by {
            if k < one.0.len() {
                assert(r.0[k] == one.0[k]);
            } else {
                assert(r.0[k] == rest.0[k - one.0.len()]);
            }
        }
    }
}

/// Every size of `unhash_sizes` reports sound strings of that size.
proof fn lemma_unhash_sizes_sound(hash: int, size: int, max_size: int)
    ensures
        forall|k: int| 0 <= k < unhash_sizes(hash, size, max_size).0.len() ==> {
            let c = #[trigger] unhash_sizes(hash, size, max_size).0[k];
            &&& size <= c.len() <= max_size
            &&& sound_candidate(c, c.len() as int, hash)
        },
    decreases max_size + 1 - size,
{
    let r = unhash_sizes(hash, size, max_size);
    if size <= max_size && size > 0 {
        lemma_unhash_tries_sound(hash, size as nat, 0, tries(size as nat));
        lemma_unhash_sizes_sound(hash, size + 1, max_size);
        let here = unhash_tries(hash, size as nat, 0, tries(size as nat));
        let later = unhash_sizes(hash, size + 1, max_size);
        assert forall|k: int| 0 <= k < r.0.len() implies {
            let c = #[trigger] r.0[k];
            &&& size <= c.len() <= max_size
            &&& sound_candidate(c, c.len() as int, hash)
        } by {
            if k < here.0.len() {
                assert(r.0[k] == here.0[k]);
            } else {
                assert(r.0[k] == later.0[k - here.0.len()]);
            }
        }
    }
}

/// Every string the unhasher reports for `hash` has between `min_size` and `max_size`
/// bytes, each printable (32 to 128), and its lazy hash agrees with `hash` in the low
/// eight bits.
pub proof fn lemma_unhasher_sound(hash: u64, min_size: u8, max_size: u8, k: int)
    requires
        0 <= k < unhash_sizes(hash as int, min_size as int, max_size as int).0.len(),
    ensures
        ({
            let c = unhash_sizes(hash as int, min_size as int, max_size as int).0[k];
            &&& min_size <= c.len() <= max_size
            &&& printable(c)
            &&& spec_lazy_hash(latin1(c)) % 256 == hash % 256
        }),
{
    lemma_unhash_sizes_sound(hash as int, min_size as int, max_size as int);
    let c = unhash_sizes(hash as int, min_size as int, max_size as int).0[k];
    lemma_lazy_hash_is_poly(c);
    vstd::arithmetic::div_mod::lemma_mod_mod(poly47(c), 256, 0x100_0000_0000int);
}

/// `46 * (1 + 47 + ... + 47^(e - 1)) + 1 == 47^e`.
proof fn lemma_geo47_closed(e: nat)
    ensures
        46 * geo47(e) + 1 == power47(e),
    decreases e,
{
    if e > 0 {
        lemma_geo47_closed((e - 1) as nat);
    }
}

/// `47^e` grows with `e`.
proof fn lemma_power47_grows(a: nat, b: nat)
    requires
        a <= b,
    ensures
        power47(a) <= power47(b),
    decreases b,
{
    if a < b {
        lemma_power47_grows(a, (b - 1) as nat);
    }
}

/// `r` lies between the least base-47 value of `e + 1` printable bytes,
/// `32 * (1 + 47 + ... + 47^e)`, and `256 * 47^e`: the targets for which the search over
/// the last `e + 1` positions finds only exact matches.
pub open spec fn exact_window(e: nat, r: int) -> bool {
    32 * geo47(e + 1) <= r < 256 * power47(e)
}

/// A window target that fits in 64 bits leaves at most ten positions after the first.
proof fn lemma_exact_window_short(e: nat, r: int)
    requires
        exact_window(e, r),
        r <= u64::MAX,
    ensures
        e <= 10,
{
    if e > 10 {
        lemma_power47_bounds(0);
        lemma_power47_grows(12, e + 1);
        lemma_geo47_closed(e + 1);
    }
}

/// Inside the window, the search's wrapped arithmetic at a position with `e` positions
/// after it is exact: its multiplier is `47^e`, its addends are `32` and `128` times
/// `1 + 47 + ... + 47^(e - 1)`, and the byte range is the pair of floor quotients, both
/// below 256.
proof fn lemma_exact_range(e: nat, r: int)
    requires
        1 <= e <= 10,
        exact_window(e, r),
    ensures
        wrap(power47(e) as int) == power47(e),
        addend(MAX_CHAR as int, e) == 128 * geo47(e),
        addend(MIN_CHAR as int, e) == 32 * geo47(e),
        wrap(r - 128 * geo47(e)) == r - 128 * geo47(e),
        wrap(r - 32 * geo47(e)) == r - 32 * geo47(e),
        0 <= (r - 128 * geo47(e)) / (power47(e) as int) < 256,
        0 <= (r - 32 * geo47(e)) / (power47(e) as int) < 256,
{
    let p = power47(e) as int;
    let g = geo47(e) as int;
    lemma_power47_bounds(0);
    lemma_power47_grows(e, 10);
    lemma_geo47_closed(e);
    assert(geo47(e + 1) == g + p);
    let w = word();
    vstd::arithmetic::div_mod::lemma_small_mod(p as nat, w as nat);
    vstd::arithmetic::div_mod::lemma_small_mod((128 * g) as nat, w as nat);
    vstd::arithmetic::div_mod::lemma_small_mod((32 * g) as nat, w as nat);
    assert(r - 128 * g > 0);
    vstd::arithmetic::div_mod::lemma_small_mod((r - 128 * g) as nat, w as nat);
    vstd::arithmetic::div_mod::lemma_small_mod((r - 32 * g) as nat, w as nat);
    let x = r - 128 * g;
    let y = r - 32 * g;
    vstd::arithmetic::div_mod::lemma_fundamental_div_mod(x, p);
    vstd::arithmetic::div_mod::lemma_mod_pos_bound(x, p);
    vstd::arithmetic::div_mod::lemma_fundamental_div_mod(y, p);
    vstd::arithmetic::div_mod::lemma_mod_pos_bound(y, p);
    assert(0 <= x / p < 256) by (nonlinear_arith)
        requires
            x == p * (x / p) + x % p,
            0 <= x % p < p,
            0 <= x < 256 * p,
    ;
    assert(0 <= y / p < 256) by (nonlinear_arith)
        requires
            y == p * (y / p) + y % p,
            0 <= y % p < p,
            0 <= y < 256 * p,
    ;
}

/// Each byte of the range leaves a remainder inside the window one position further on.
proof fn lemma_exact_child(e: nat, r: int, i: int)
    requires
        1 <= e <= 10,
        exact_window(e, r),
        (r - 128 * geo47(e)) / (power47(e) as int) <= i <= (r - 32 * geo47(e)) / (power47(e) as int),
    ensures
        exact_window((e - 1) as nat, r - i * power47(e)),
{
    let p = power47(e) as int;
    let g = geo47(e) as int;
    let q = power47((e - 1) as nat) as int;
    lemma_power47_bounds(0);
    lemma_exact_range(e, r);
    lemma_geo47_closed(e);
    assert(p == 47 * q);
    assert(geo47(e) == geo47((e - 1) as nat) + q);
    let x = r - 128 * g;
    let y = r - 32 * g;
    vstd::arithmetic::div_mod::lemma_fundamental_div_mod(x, p);
    vstd::arithmetic::div_mod::lemma_mod_pos_bound(x, p);
    vstd::arithmetic::div_mod::lemma_fundamental_div_mod(y, p);
    vstd::arithmetic::div_mod::lemma_mod_pos_bound(y, p);
    assert(i * p <= y) by (nonlinear_arith)
        requires
            i <= y / p,
            y == p * (y / p) + y % p,
            0 <= y % p,
            p > 0,
    ;
    assert(i * p > x - p) by (nonlinear_arith)
        requires
            x / p <= i,
            x == p * (x / p) + x % p,
            x % p < p,
            p > 0,
    ;
}

/// Inside the window, every string the search reports has a base-47 value equal to `h`.
proof fn lemma_explore_exact(n: nat, h: int, d: nat, cur: int, buf: Seq<u8>, i: int)
    requires
        d <= n <= 10,
        d <= buf.len(),
        cur == partial47(buf.take(d as int), n),
        exact_window((n - d) as nat, h - cur),
        d < n ==> i >= first_byte(n, h, d, cur),
    ensures
        forall|k: int| 0 <= k < explore(n, h, d, cur, buf, i).0.len()
            ==> poly47(#[trigger] explore(n, h, d, cur, buf, i).0[k]) == h,
    decreases n - d, 257 - i,
{
    let r = explore(n, h, d, cur, buf, i);
    lemma_power47_bounds(0);
    if d >= n {
        lemma_explore_last(n, h, d, cur, buf, i);
        let last = last_byte(h, cur);
        assert(power47(0) == 1);
        assert(geo47(0) == 0);
        assert(geo47(1) == 1);
        vstd::arithmetic::div_mod::lemma_small_mod((h - cur) as nat, word() as nat);
        vstd::arithmetic::div_mod::lemma_small_mod((h - cur) as nat, 256);
        assert(last == h - cur);
        if MIN_CHAR <= last <= MAX_CHAR && n < buf.len() && n + 1 <= u8::MAX {
            let prefix = buf.take(n as int);
            let c = prefix.push(last as u8);
            assert(c.drop_last() =~= prefix);
            assert(partial47(c, n) == partial47(prefix, n) + last * power47(0));
            lemma_partial_is_scaled_poly(c, n);
            assert(partial47(prefix, n) == cur);
            assert(poly47(c) * power47(0) == poly47(c));
            assert(poly47(c) == h);
            assert(r.0 == seq![c]);
        }
    } else {
        let e = (n - d) as nat;
        let p = power47(e) as int;
        let g = geo47(e) as int;
        lemma_exact_range(e, h - cur);
        assert(byte_range(n, h, d, cur) == ((h - cur - 128 * g) / p, (h - cur - 32 * g) / p)) by {
            reveal(byte_range);
            vstd::arithmetic::div_mod::lemma_small_mod(((h - cur - 128 * g) / p) as nat, 256);
            vstd::arithmetic::div_mod::lemma_small_mod(((h - cur - 32 * g) / p) as nat, 256);
        }
        lemma_explore_nothing(n, h, d, cur, buf, i);
        let (lo, hi) = byte_range(n, h, d, cur);
        if MIN_CHAR <= lo && hi <= MAX_CHAR && 0 <= i <= hi {
            lemma_explore_step(n, h, d, cur, buf, i);
            let m = position_multiplier(n, d);
            assert(m == p);
            if d < buf.len() && cur + i * m <= u64::MAX {
                let next = cur + i * m;
                let b1 = buf.update(d as int, i as u8);
                let prefix = buf.take(d as int);
                assert(b1.take(d + 1int) =~= prefix.push(i as u8));
                assert(prefix.push(i as u8).drop_last() =~= prefix);
                assert(partial47(b1.take(d + 1int), n) == cur + i * p);
                lemma_exact_child(e, h - cur, i);
                assert(h - next == h - cur - i * p);
                lemma_explore_exact(n, h, d + 1, next, b1, first_byte(n, h, d + 1, next));
                let first = explore(n, h, d + 1, next, b1, first_byte(n, h, d + 1, next));
                lemma_explore_frame(n, h, d + 1, next, b1, first_byte(n, h, d + 1, next));
                assert(first.2.take(d as int) =~= prefix);
                lemma_explore_exact(n, h, d, cur, first.2, i + 1);
                let rest = explore(n, h, d, cur, first.2, i + 1);
                assert forall|k: int| 0 <= k < r.0.len() implies poly47(#[trigger] r.0[k]) == h by {
                    if k < first.0.len() {
                        assert(r.0[k] == first.0[k]);
                    } else {
                        assert(r.0[k] == rest.0[k - first.0.len()]);
                    }
                }
            }
        }
    }
}

/// A multiple of `2^49`, reduced modulo `2^64`, vanishes modulo `2^48`, so every target
/// agrees with `hash` modulo `2^48`.
proof fn lemma_target_low_bits(hash: int, index: int)
    requires
        index >= 0,
    ensures
        target(hash, index) % (HASH_MODULUS as int) == hash % (HASH_MODULUS as int),
{
    let m = HASH_MODULUS as int;
    let x = OVERFLOW_CANCEL * index;
    assert(x == m * (2 * index)) by (nonlinear_arith)
        requires x == OVERFLOW_CANCEL * index, OVERFLOW_CANCEL == 0x2_0000_0000_0000, m == 0x1_0000_0000_0000;
    vstd::arithmetic::div_mod::lemma_mod_mod(x, m, 0x1_0000);
    assert(m * 0x1_0000 == word());
    vstd::arithmetic::div_mod::lemma_mod_multiples_basic(2 * index, m);
    assert(x % m == (2 * index * m) % m) by (nonlinear_arith)
        requires x == m * (2 * index);
    vstd::arithmetic::div_mod::lemma_add_mod_noop(hash, wrap(x), m);
    vstd::arithmetic::div_mod::lemma_mod_twice(hash, m);
}

/// Every string one try reports for a target inside the window has a base-47 value equal
/// to the target.
proof fn lemma_try_exact(hash: int, size: nat, index: int)
    requires
        size >= 1,
        target(hash, index) <= u64::MAX,
        exact_window((size - 1) as nat, target(hash, index)),
    ensures
        forall|k: int| 0 <= k < try_result(hash, size, index).0.len()
            ==> poly47(#[trigger] try_result(hash, size, index).0[k]) == target(hash, index),
{
    let h = target(hash, index);
    let n = (size - 1) as nat;
    lemma_exact_window_short(n, h);
    assert(zero_bytes(size).take(0) =~= Seq::<u8>::empty());
    assert(partial47(Seq::<u8>::empty(), n) == 0);
    lemma_explore_exact(n, h, 0, 0, zero_bytes(size), first_byte(n, h, 0, 0));
}

/// One try of the unhasher (`unhash_try`) aimed at a target inside the window finds only
/// exact preimages: each string it reports has a base-47 value equal to the target, so its
/// lazy hash equals `hash` modulo `2^48`.
pub proof fn lemma_unhash_try_exact(hash: u64, size: u8, index: u64, k: int)
    requires
        size >= 1,
        exact_window((size - 1) as nat, target(hash as int, index as int)),
        0 <= k < try_result(hash as int, size as nat, index as int).0.len(),
    ensures
        poly47(try_result(hash as int, size as nat, index as int).0[k]) == target(hash as int, index as int),
        spec_lazy_hash(latin1(try_result(hash as int, size as nat, index as int).0[k]))
            == hash % HASH_MODULUS,
{
    let c = try_result(hash as int, size as nat, index as int).0[k];
    lemma_try_exact(hash as int, size as nat, index as int);
    lemma_lazy_hash_is_poly(c);
    lemma_target_low_bits(hash as int, index as int);
}

/// Up to eight bytes the hash of a printable string cannot wrap past `MAX_SIZE`, so each
/// size gets a single try.
proof fn lemma_single_try(size: nat)
    requires
        1 <= size <= 8,
    ensures
        tries(size) == 0,
{
    lemma_highest_hash_values();
}

/// For sizes up to eight, what the unhasher finds in the window of its size matches
/// `hash` exactly.
proof fn lemma_unhash_sizes_exact(hash: int, size: int, max_size: int)
    requires
        0 <= hash <= u64::MAX,
        max_size <= 8,
    ensures
        forall|k: int| 0 <= k < unhash_sizes(hash, size, max_size).0.len() ==> {
            let c = #[trigger] unhash_sizes(hash, size, max_size).0[k];
            exact_window((c.len() - 1) as nat, hash) ==> poly47(c) == hash
        },
    decreases max_size + 1 - size,
{
    let r = unhash_sizes(hash, size, max_size);
    if size <= max_size && size > 0 {
        let s = size as nat;
        lemma_single_try(s);
        lemma_unhash_tries_sound(hash, s, 0, 0);
        lemma_unhash_sizes_exact(hash, size + 1, max_size);
        let here = unhash_tries(hash, s, 0, tries(s));
        let one = try_result(hash, s, 0);
        let later = unhash_sizes(hash, size + 1, max_size);
        assert(unhash_tries(hash, s, 1, 0) == (Seq::<Seq<u8>>::empty(), true));
        assert(here.0 =~= one.0);
        assert(target(hash, 0) == hash) by {
            vstd::arithmetic::div_mod::lemma_small_mod(0, word() as nat);
        }
        if exact_window((s - 1) as nat, hash) {
            lemma_try_exact(hash, s, 0);
        }
        assert forall|k: int| 0 <= k < r.0.len() implies {
            let c = #[trigger] r.0[k];
            exact_window((c.len() - 1) as nat, hash) ==> poly47(c) == hash
        } by {
            if k < here.0.len() {
                assert(r.0[k] == here.0[k]);
                assert(sound_candidate(here.0[k], size, hash));
                assert(here.0[k] == one.0[k]);
            } else {
                assert(r.0[k] == later.0[k - here.0.len()]);
            }
        }
    }
}

/// For strings of at most eight bytes, the unhasher (`lazy_unhasher`) finds only exact
/// preimages in the window of each size: a string it reports whose size puts `hash`
/// between `32 * (1 + 47 + ... + 47^(size - 1))` and `256 * 47^(size - 1)` has a base-47
/// value equal to `hash`, so its lazy hash is `hash` modulo `2^48`.
pub proof fn lemma_unhasher_exact(hash: u64, min_size: u8, max_size: u8, k: int)
    requires
        max_size <= 8,
        0 <= k < unhash_sizes(hash as int, min_size as int, max_size as int).0.len(),
        exact_window(
            (unhash_sizes(hash as int, min_size as int, max_size as int).0[k].len() - 1) as nat,
            hash as int,
        ),
    ensures
        poly47(unhash_sizes(hash as int, min_size as int, max_size as int).0[k]) == hash,
        spec_lazy_hash(latin1(unhash_sizes(hash as int, min_size as int, max_size as int).0[k]))
            == hash % HASH_MODULUS,
{
    let c = unhash_sizes(hash as int, min_size as int, max_size as int).0[k];
    lemma_unhash_sizes_exact(hash as int, min_size as int, max_size as int);
    lemma_lazy_hash_is_poly(c);
}

/// `c` is the `m`-th string of one try `j` in `lo..=hi` for strings of `size` bytes.
pub open spec fn found_by_try(hash: int, size: nat, lo: int, hi: int, c: Seq<u8>) -> bool {
    exists|j: int, m: int|
        lo <= j <= hi && 0 <= m < try_result(hash, size, j).0.len()
            && #[trigger] try_result(hash, size, j).0[m] == c
}

/// Every string of `unhash_tries` comes from one of its tries.
proof fn lemma_unhash_tries_members(hash: int, size: nat, index: int, last: int)
    ensures
        forall|k: int| 0 <= k < unhash_tries(hash, size, index, last).0.len()
            ==> found_by_try(hash, size, index, last, #[trigger] unhash_tries(hash, size, index, last).0[k]),
    decreases last + 1 - index,
{
    let r = unhash_tries(hash, size, index, last);
    if index <= last {
        let one = try_result(hash, size, index);
        lemma_unhash_tries_members(hash, size, index + 1, last);
        let rest = unhash_tries(hash, size, index + 1, last);
        assert forall|k: int| 0 <= k < r.0.len() implies found_by_try(hash, size, index, last, #[trigger] r.0[k]) by {
            if k < one.0.len() {
                assert(r.0[k] == one.0[k]);
                assert(try_result(hash, size, index).0[k] == r.0[k]);
            } else {
                let c = rest.0[k - one.0.len()];
                assert(r.0[k] == c);
                assert(found_by_try(hash, size, index + 1, last, c));
                let (j, m) = choose|j: int, m: int|
                    index + 1 <= j <= last && 0 <= m < try_result(hash, size, j).0.len()
                        && #[trigger] try_result(hash, size, j).0[m] == c;
                assert(try_result(hash, size, j).0[m] == r.0[k]);
            }
        }
    }
}

/// Every string of `unhash_sizes` comes from one try for its own size.
proof fn lemma_unhash_sizes_members(hash: int, size: int, max_size: int)
    ensures
        forall|k: int| 0 <= k < unhash_sizes(hash, size, max_size).0.len() ==> {
            let c = #[trigger] unhash_sizes(hash, size, max_size).0[k];
            found_by_try(hash, c.len(), 0, tries(c.len()), c)
        },
    decreases max_size + 1 - size,
{
    let r = unhash_sizes(hash, size, max_size);
    if size <= max_size && size > 0 {
        let s = size as nat;
        lemma_unhash_tries_sound(hash, s, 0, tries(s));
        lemma_unhash_tries_members(hash, s, 0, tries(s));
        lemma_unhash_sizes_members(hash, size + 1, max_size);
        let here = unhash_tries(hash, s, 0, tries(s));
        let later = unhash_sizes(hash, size + 1, max_size);
        assert forall|k: int| 0 <= k < r.0.len() implies {
            let c = #[trigger] r.0[k];
            found_by_try(hash, c.len(), 0, tries(c.len()), c)
        } by {
            if k < here.0.len() {
                assert(r.0[k] == here.0[k]);
                assert(sound_candidate(here.0[k], size, hash));
                assert(found_by_try(hash, s, 0, tries(s), here.0[k]));
            } else {
                assert(r.0[k] == later.0[k - here.0.len()]);
            }
        }
    }
}

/// Every string the unhasher (`lazy_unhasher`) reports is reported by one of its tries:
/// `unhash_try(hash, size, index)` for the string's own size and some `index` up to
/// `calculate_overflow_frequency(size)`. With `lemma_unhash_try_exact`, a string from a
/// try whose target lies in the window of its size has a lazy hash equal to `hash`
/// modulo `2^48`.
pub proof fn lemma_unhasher_tries(hash: u64, min_size: u8, max_size: u8, k: int)
    requires
        0 <= k < unhash_sizes(hash as int, min_size as int, max_size as int).0.len(),
    ensures
        ({
            let c = unhash_sizes(hash as int, min_size as int, max_size as int).0[k];
            found_by_try(hash as int, c.len(), 0, tries(c.len()), c)
        }),
{
    lemma_unhash_sizes_members(hash as int, min_size as int, max_size as int);
}

/// For an ASCII string, reading its first `k` bytes back as characters gives its first `k`
/// characters: `print_string` undoes `from_string_to_vec`.
pub proof fn lemma_bytes_round_trip(s: &str, k: int)
    requires
        vstd::string::is_ascii(s),
        0 <= k <= s@.len(),
    ensures
        s.spec_bytes().len() == s@.len(),
        latin1(s.spec_bytes().take(k)) == s@.take(k),
{
    broadcast use vstd::string::is_ascii_spec_bytes;
    assert forall|j: int| 0 <= j < k implies (s.spec_bytes()[j] as char) == s@[j] by {
        let c = s@[j];
        assert(vstd::utf8::is_ascii_chars(s@));
        assert((c as int) < 128);
    }
    assert(latin1(s.spec_bytes().take(k)) =~= s@.take(k));
}

} // verus!

