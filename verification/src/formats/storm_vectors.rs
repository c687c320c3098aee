//! Reference values of the Storm crypt table, of the name hashes and of
//! the table cipher, as StormLib and every MPQ tool compute them, checked
//! against the definitions step by step.

use vstd::prelude::*;
use crate::formats::mpq_crypt::{crypt_seed, crypt_entry, hash_byte, hash_state, storm_hash, spec_decrypt, decrypt_from};

verus! {

/// The crypt-table generator's seeds up to step 256, one step at a time.
proof fn lemma_generator_0()
    ensures
        crypt_seed(0) == 1048577,
        crypt_seed(256) == 2509142,
        crypt_seed(1) == 2446790,
        crypt_seed(2) == 1062626,
        crypt_seed(3) == 1406712,
        crypt_seed(4) == 2474417,
        crypt_seed(5) == 1719798,
        crypt_seed(6) == 2463325,
        crypt_seed(9) == 1251642,
        crypt_seed(10) == 2664088,
        crypt_seed(11) == 262846,
        crypt_seed(12) == 2097520,
{
    assert(crypt_seed(0) == 1048577);
    assert(crypt_seed(1) == 2446790); assert(crypt_seed(2) == 1062626); assert(crypt_seed(3) == 1406712); assert(crypt_seed(4) == 2474417);
    assert(crypt_seed(5) == 1719798); assert(crypt_seed(6) == 2463325); assert(crypt_seed(7) == 333298); assert(crypt_seed(8) == 2515411);
    assert(crypt_seed(9) == 1251642); assert(crypt_seed(10) == 2664088); assert(crypt_seed(11) == 262846); assert(crypt_seed(12) == 2097520);
    assert(crypt_seed(13) == 2143124); assert(crypt_seed(14) == 2251218); assert(crypt_seed(15) == 1781953); assert(crypt_seed(16) == 1844091);
    assert(crypt_seed(17) == 1222732); assert(crypt_seed(18) == 1846541); assert(crypt_seed(19) == 1528982); assert(crypt_seed(20) == 980949);
    assert(crypt_seed(21) == 2381899); assert(crypt_seed(22) == 1339860); assert(crypt_seed(23) == 2506526); assert(crypt_seed(24) == 141017);
    assert(crypt_seed(25) == 849910); assert(crypt_seed(26) == 2779242); assert(crypt_seed(27) == 676081); assert(crypt_seed(28) == 624038);
    assert(crypt_seed(29) == 2507272); assert(crypt_seed(30) == 234267); assert(crypt_seed(31) == 1321348); assert(crypt_seed(32) == 192526);
    assert(crypt_seed(33) == 1696129); assert(crypt_seed(34) == 2300903); assert(crypt_seed(35) == 2400172); assert(crypt_seed(36) == 827782);
    assert(crypt_seed(37) == 13242); assert(crypt_seed(38) == 1655253); assert(crypt_seed(39) == 2783809); assert(crypt_seed(40) == 1246956);
    assert(crypt_seed(41) == 2078338); assert(crypt_seed(42) == 2541577); assert(crypt_seed(43) == 1726189); assert(crypt_seed(44) == 465997);
    assert(crypt_seed(45) == 2325568); assert(crypt_seed(46) == 2687094); assert(crypt_seed(47) == 342393); assert(crypt_seed(48) == 856083);
    assert(crypt_seed(49) == 754664); assert(crypt_seed(50) == 2058304); assert(crypt_seed(51) == 37327); assert(crypt_seed(52) == 1869675);
    assert(crypt_seed(53) == 1624529); assert(crypt_seed(54) == 1739512); assert(crypt_seed(55) == 2131372); assert(crypt_seed(56) == 782218);
    assert(crypt_seed(57) == 2706351); assert(crypt_seed(58) == 2749518); assert(crypt_seed(59) == 2552987); assert(crypt_seed(60) == 356236);
    assert(crypt_seed(61) == 2586458); assert(crypt_seed(62) == 1743908); assert(crypt_seed(63) == 2680872); assert(crypt_seed(64) == 2360846);
    assert(crypt_seed(65) == 1504438); assert(crypt_seed(66) == 709152); assert(crypt_seed(67) == 1961710); assert(crypt_seed(68) == 1944092);
    assert(crypt_seed(69) == 2538045); assert(crypt_seed(70) == 1284689); assert(crypt_seed(71) == 1202557); assert(crypt_seed(72) == 2120869);
    assert(crypt_seed(73) == 2265546); assert(crypt_seed(74) == 776750); assert(crypt_seed(75) == 2022851); assert(crypt_seed(76) == 1198108);
    assert(crypt_seed(77) == 1564744); assert(crypt_seed(78) == 2654996); assert(crypt_seed(79) == 1922549); assert(crypt_seed(80) == 2641373);
    assert(crypt_seed(81) == 219674); assert(crypt_seed(82) == 2293426); assert(crypt_seed(83) == 1465547); assert(crypt_seed(84) == 1440183);
    assert(crypt_seed(85) == 1065886); assert(crypt_seed(86) == 1814212); assert(crypt_seed(87) == 284060); assert(crypt_seed(88) == 1953067);
    assert(crypt_seed(89) == 863717); assert(crypt_seed(90) == 1708914); assert(crypt_seed(91) == 1102825); assert(crypt_seed(92) == 839181);
    assert(crypt_seed(93) == 1438117); assert(crypt_seed(94) == 807636); assert(crypt_seed(95) == 291195); assert(crypt_seed(96) == 48739);
    assert(crypt_seed(97) == 499972); assert(crypt_seed(98) == 980037); assert(crypt_seed(99) == 2267899); assert(crypt_seed(100) == 1070875);
    assert(crypt_seed(101) == 2437837); assert(crypt_seed(102) == 2739704); assert(crypt_seed(103) == 1326237); assert(crypt_seed(104) == 803651);
    assert(crypt_seed(105) == 2589273); assert(crypt_seed(106) == 2095783); assert(crypt_seed(107) == 1925999); assert(crypt_seed(108) == 276420);
    assert(crypt_seed(109) == 998067); assert(crypt_seed(110) == 1725446); assert(crypt_seed(111) == 373122); assert(crypt_seed(112) == 1901005);
    assert(crypt_seed(113) == 2744576); assert(crypt_seed(114) == 1935237); assert(crypt_seed(115) == 1431170); assert(crypt_seed(116) == 2735464);
    assert(crypt_seed(117) == 796237); assert(crypt_seed(118) == 1662523); assert(crypt_seed(119) == 896356); assert(crypt_seed(120) == 196383);
    assert(crypt_seed(121) == 2178254); assert(crypt_seed(122) == 1050062); assert(crypt_seed(123) == 2632415); assert(crypt_seed(124) == 1896127);
    assert(crypt_seed(125) == 2134826); assert(crypt_seed(126) == 1213968); assert(crypt_seed(127) == 751041); assert(crypt_seed(128) == 1605429);
    assert(crypt_seed(129) == 2148215); assert(crypt_seed(130) == 91390); assert(crypt_seed(131) == 238941); assert(crypt_seed(132) == 1905598);
    assert(crypt_seed(133) == 522498); assert(crypt_seed(134) == 999584); assert(crypt_seed(135) == 1915071); assert(crypt_seed(136) == 1706623);
    assert(crypt_seed(137) == 816450); assert(crypt_seed(138) == 1392945); assert(crypt_seed(139) == 753542); assert(crypt_seed(140) == 1918054);
    assert(crypt_seed(141) == 2079498); assert(crypt_seed(142) == 2686577); assert(crypt_seed(143) == 277768); assert(crypt_seed(144) == 1166567);
    assert(crypt_seed(145) == 418322); assert(crypt_seed(146) == 1958599); assert(crypt_seed(147) == 1555217); assert(crypt_seed(148) == 1464121);
    assert(crypt_seed(149) == 1261933); assert(crypt_seed(150) == 1154260); assert(crypt_seed(151) == 1676150); assert(crypt_seed(152) == 2599731);
    assert(crypt_seed(153) == 606830); assert(crypt_seed(154) == 356272); assert(crypt_seed(155) == 2590958); assert(crypt_seed(156) == 2306408);
    assert(crypt_seed(157) == 292094); assert(crypt_seed(158) == 161114); assert(crypt_seed(159) == 565832); assert(crypt_seed(160) == 823928);
    assert(crypt_seed(161) == 2327695); assert(crypt_seed(162) == 156766); assert(crypt_seed(163) == 22332); assert(crypt_seed(164) == 2791503);
    assert(crypt_seed(165) == 2208706); assert(crypt_seed(166) == 2060359); assert(crypt_seed(167) == 294202); assert(crypt_seed(168) == 424614);
    assert(crypt_seed(169) == 2745099); assert(crypt_seed(170) == 2000612); assert(crypt_seed(171) == 1214436); assert(crypt_seed(172) == 809541);
    assert(crypt_seed(173) == 529320); assert(crypt_seed(174) == 1852334); assert(crypt_seed(175) == 2253107); assert(crypt_seed(176) == 2018078);
    assert(crypt_seed(177) == 601483); assert(crypt_seed(178) == 2484100); assert(crypt_seed(179) == 133970); assert(crypt_seed(180) == 2765238);
    assert(crypt_seed(181) == 1721784); assert(crypt_seed(182) == 2711575); assert(crypt_seed(183) == 606315); assert(crypt_seed(184) == 291897);
    assert(crypt_seed(185) == 136489); assert(crypt_seed(186) == 283910); assert(crypt_seed(187) == 1934317); assert(crypt_seed(188) == 1316170);
    assert(crypt_seed(189) == 2341479); assert(crypt_seed(190) == 1879766); assert(crypt_seed(191) == 89701); assert(crypt_seed(192) == 27816);
    assert(crypt_seed(193) == 680800); assert(crypt_seed(194) == 1213913); assert(crypt_seed(195) == 744166); assert(crypt_seed(196) == 746054);
    assert(crypt_seed(197) == 982054); assert(crypt_seed(198) == 2520024); assert(crypt_seed(199) == 1828267); assert(crypt_seed(200) == 2040935);
    assert(crypt_seed(201) == 662405); assert(crypt_seed(202) == 1710741); assert(crypt_seed(203) == 1331200); assert(crypt_seed(204) == 1424026);
    assert(crypt_seed(205) == 1842464); assert(crypt_seed(206) == 1019357); assert(crypt_seed(207) == 1590493); assert(crypt_seed(208) == 281215);
    assert(crypt_seed(209) == 1597442); assert(crypt_seed(210) == 1149840); assert(crypt_seed(211) == 1123650); assert(crypt_seed(212) == 646103);
    assert(crypt_seed(213) == 2469194); assert(crypt_seed(214) == 1066923); assert(crypt_seed(215) == 1943837); assert(crypt_seed(216) == 2506170);
    assert(crypt_seed(217) == 96517); assert(crypt_seed(218) == 879816); assert(crypt_seed(219) == 925086); assert(crypt_seed(220) == 991430);
    assert(crypt_seed(221) == 895821); assert(crypt_seed(222) == 129508); assert(crypt_seed(223) == 2207488); assert(crypt_seed(224) == 1908109);
    assert(crypt_seed(225) == 836373); assert(crypt_seed(226) == 1087117); assert(crypt_seed(227) == 1671884); assert(crypt_seed(228) == 2066481);
    assert(crypt_seed(229) == 1059452); assert(crypt_seed(230) == 1009962); assert(crypt_seed(231) == 416118); assert(crypt_seed(232) == 1683099);
    assert(crypt_seed(233) == 672153); assert(crypt_seed(234) == 133038); assert(crypt_seed(235) == 2648738); assert(crypt_seed(236) == 1140299);
    assert(crypt_seed(237) == 2727228); assert(crypt_seed(238) == 2562940); assert(crypt_seed(239) == 1600361); assert(crypt_seed(240) == 1514715);
    assert(crypt_seed(241) == 1993777); assert(crypt_seed(242) == 360061); assert(crypt_seed(243) == 268380); assert(crypt_seed(244) == 2789270);
    assert(crypt_seed(245) == 1929581); assert(crypt_seed(246) == 724170); assert(crypt_seed(247) == 1042757); assert(crypt_seed(248) == 1719290);
    assert(crypt_seed(249) == 2399825); assert(crypt_seed(250) == 784407); assert(crypt_seed(251) == 183773); assert(crypt_seed(252) == 602004);
    assert(crypt_seed(253) == 2549225); assert(crypt_seed(254) == 2682189); assert(crypt_seed(255) == 2525471); assert(crypt_seed(256) == 2509142);
}

/// The crypt-table generator's seeds up to step 512, one step at a time.
proof fn lemma_generator_1()
    ensures
        crypt_seed(512) == 489108,
        crypt_seed(327) == 2277983,
        crypt_seed(328) == 2331375,
        crypt_seed(401) == 1428060,
        crypt_seed(402) == 2346714,
        crypt_seed(403) == 2534141,
        crypt_seed(404) == 796689,
        crypt_seed(405) == 1719023,
        crypt_seed(406) == 2366450,
        crypt_seed(407) == 2204938,
        crypt_seed(408) == 1589359,
        crypt_seed(411) == 898866,
        crypt_seed(412) == 510133,
        crypt_seed(413) == 2250162,
        crypt_seed(414) == 1649953,
        crypt_seed(415) == 2121309,
        crypt_seed(416) == 2320546,
        crypt_seed(417) == 2059344,
        crypt_seed(418) == 167327,
{
    lemma_generator_0();
    assert(crypt_seed(257) == 468017); assert(crypt_seed(258) == 2578068); assert(crypt_seed(259) == 695158); assert(crypt_seed(260) == 212460);
    assert(crypt_seed(261) == 1391676); assert(crypt_seed(262) == 594917); assert(crypt_seed(263) == 1663350); assert(crypt_seed(264) == 999731);
    assert(crypt_seed(265) == 1933446); assert(crypt_seed(266) == 1207295); assert(crypt_seed(267) == 2713119); assert(crypt_seed(268) == 799315);
    assert(crypt_seed(269) == 2047273); assert(crypt_seed(270) == 1454655); assert(crypt_seed(271) == 78683); assert(crypt_seed(272) == 1446769);
    assert(crypt_seed(273) == 1889136); assert(crypt_seed(274) == 1260951); assert(crypt_seed(275) == 1031510); assert(crypt_seed(276) == 313415);
    assert(crypt_seed(277) == 30036); assert(crypt_seed(278) == 958300); assert(crypt_seed(279) == 2346977); assert(crypt_seed(280) == 2567016);
    assert(crypt_seed(281) == 2109861); assert(crypt_seed(282) == 889546); assert(crypt_seed(283) == 2141336); assert(crypt_seed(284) == 2027718);
    assert(crypt_seed(285) == 1806483); assert(crypt_seed(286) == 2114138); assert(crypt_seed(287) == 1424171); assert(crypt_seed(288) == 1860589);
    assert(crypt_seed(289) == 488779); assert(crypt_seed(290) == 2377115); assert(crypt_seed(291) == 741860); assert(crypt_seed(292) == 457804);
    assert(crypt_seed(293) == 1301443); assert(crypt_seed(294) == 500604); assert(crypt_seed(295) == 1059037); assert(crypt_seed(296) == 958087);
    assert(crypt_seed(297) == 2320352); assert(crypt_seed(298) == 2035094); assert(crypt_seed(299) == 2728483); assert(crypt_seed(300) == 2719815);
    assert(crypt_seed(301) == 1636315); assert(crypt_seed(302) == 416559); assert(crypt_seed(303) == 1738224); assert(crypt_seed(304) == 1970372);
    assert(crypt_seed(305) == 230639); assert(crypt_seed(306) == 867848); assert(crypt_seed(307) == 2225289); assert(crypt_seed(308) == 1337031);
    assert(crypt_seed(309) == 2152901); assert(crypt_seed(310) == 677140); assert(crypt_seed(311) == 756413); assert(crypt_seed(312) == 2276929);
    assert(crypt_seed(313) == 2199625); assert(crypt_seed(314) == 925234); assert(crypt_seed(315) == 1009930); assert(crypt_seed(316) == 412118);
    assert(crypt_seed(317) == 1183099); assert(crypt_seed(318) == 2484822); assert(crypt_seed(319) == 224220); assert(crypt_seed(320) == 65473);
    assert(crypt_seed(321) == 2591722); assert(crypt_seed(322) == 2401908); assert(crypt_seed(323) == 1044782); assert(crypt_seed(324) == 1972415);
    assert(crypt_seed(325) == 486014); assert(crypt_seed(326) == 2031490); assert(crypt_seed(327) == 2277983); assert(crypt_seed(328) == 2331375);
    assert(crypt_seed(329) == 616766); assert(crypt_seed(330) == 1598272); assert(crypt_seed(331) == 1253590); assert(crypt_seed(332) == 111385);
    assert(crypt_seed(333) == 2738316); assert(crypt_seed(334) == 1152737); assert(crypt_seed(335) == 1485775); assert(crypt_seed(336) == 1172480);
    assert(crypt_seed(337) == 1157447); assert(crypt_seed(338) == 2074525); assert(crypt_seed(339) == 2064952); assert(crypt_seed(340) == 868327);
    assert(crypt_seed(341) == 2285164); assert(crypt_seed(342) == 432797); assert(crypt_seed(343) == 971771); assert(crypt_seed(344) == 1234649);
    assert(crypt_seed(345) == 539963); assert(crypt_seed(346) == 386506); assert(crypt_seed(347) == 777802); assert(crypt_seed(348) == 2154351);
    assert(crypt_seed(349) == 858390); assert(crypt_seed(350) == 1043039); assert(crypt_seed(351) == 1754540); assert(crypt_seed(352) == 1213669);
    assert(crypt_seed(353) == 713666); assert(crypt_seed(354) == 2525960); assert(crypt_seed(355) == 2570267); assert(crypt_seed(356) == 2516236);
    assert(crypt_seed(357) == 1354767); assert(crypt_seed(358) == 1573698); assert(crypt_seed(359) == 978043); assert(crypt_seed(360) == 2018649);
    assert(crypt_seed(361) == 672858); assert(crypt_seed(362) == 221163); assert(crypt_seed(363) == 2479551); assert(crypt_seed(364) == 2361548);
    assert(crypt_seed(365) == 1592188); assert(crypt_seed(366) == 493090); assert(crypt_seed(367) == 119787); assert(crypt_seed(368) == 992363);
    assert(crypt_seed(369) == 1012446); assert(crypt_seed(370) == 726618); assert(crypt_seed(371) == 1348757); assert(crypt_seed(372) == 822448);
    assert(crypt_seed(373) == 2142695); assert(crypt_seed(374) == 2197593); assert(crypt_seed(375) == 671234); assert(crypt_seed(376) == 18163);
    assert(crypt_seed(377) == 2270378); assert(crypt_seed(378) == 1380750); assert(crypt_seed(379) == 2025370); assert(crypt_seed(380) == 1512983);
    assert(crypt_seed(381) == 1777277); assert(crypt_seed(382) == 1259591); assert(crypt_seed(383) == 861510); assert(crypt_seed(384) == 1433039);
    assert(crypt_seed(385) == 172886); assert(crypt_seed(386) == 2037332); assert(crypt_seed(387) == 212030); assert(crypt_seed(388) == 1337926);
    assert(crypt_seed(389) == 2264776); assert(crypt_seed(390) == 680500); assert(crypt_seed(391) == 1176413); assert(crypt_seed(392) == 1649072);
    assert(crypt_seed(393) == 2011184); assert(crypt_seed(394) == 2535936); assert(crypt_seed(395) == 1021064); assert(crypt_seed(396) == 1803868);
    assert(crypt_seed(397) == 1787263); assert(crypt_seed(398) == 2507841); assert(crypt_seed(399) == 305392); assert(crypt_seed(400) == 1823364);
    assert(crypt_seed(401) == 1428060); assert(crypt_seed(402) == 2346714); assert(crypt_seed(403) == 2534141); assert(crypt_seed(404) == 796689);
    assert(crypt_seed(405) == 1719023); assert(crypt_seed(406) == 2366450); assert(crypt_seed(407) == 2204938); assert(crypt_seed(408) == 1589359);
    assert(crypt_seed(409) == 139465); assert(crypt_seed(410) == 655910); assert(crypt_seed(411) == 898866); assert(crypt_seed(412) == 510133);
    assert(crypt_seed(413) == 2250162); assert(crypt_seed(414) == 1649953); assert(crypt_seed(415) == 2121309); assert(crypt_seed(416) == 2320546);
    assert(crypt_seed(417) == 2059344); assert(crypt_seed(418) == 167327); assert(crypt_seed(419) == 1342457); assert(crypt_seed(420) == 34948);
    assert(crypt_seed(421) == 1572300); assert(crypt_seed(422) == 803293); assert(crypt_seed(423) == 2544523); assert(crypt_seed(424) == 2094439);
    assert(crypt_seed(425) == 1757999); assert(crypt_seed(426) == 1646044); assert(crypt_seed(427) == 1632684); assert(crypt_seed(428) == 2758887);
    assert(crypt_seed(429) == 927909); assert(crypt_seed(430) == 1344305); assert(crypt_seed(431) == 265948); assert(crypt_seed(432) == 2485270);
    assert(crypt_seed(433) == 280220); assert(crypt_seed(434) == 1473067); assert(crypt_seed(435) == 2380183); assert(crypt_seed(436) == 1125360);
    assert(crypt_seed(437) == 859853); assert(crypt_seed(438) == 1225914); assert(crypt_seed(439) == 2244291); assert(crypt_seed(440) == 916078);
    assert(crypt_seed(441) == 2661633); assert(crypt_seed(442) == 2752174); assert(crypt_seed(443) == 88784); assert(crypt_seed(444) == 2709394);
    assert(crypt_seed(445) == 333690); assert(crypt_seed(446) == 2564411); assert(crypt_seed(447) == 1784236); assert(crypt_seed(448) == 2129466);
    assert(crypt_seed(449) == 543968); assert(crypt_seed(450) == 887131); assert(crypt_seed(451) == 1839461); assert(crypt_seed(452) == 643982);
    assert(crypt_seed(453) == 2204069); assert(crypt_seed(454) == 1480734); assert(crypt_seed(455) == 542355); assert(crypt_seed(456) == 685506);
    assert(crypt_seed(457) == 1802163); assert(crypt_seed(458) == 1574138); assert(crypt_seed(459) == 1033043); assert(crypt_seed(460) == 505040);
    assert(crypt_seed(461) == 1613537); assert(crypt_seed(462) == 365512); assert(crypt_seed(463) == 949755); assert(crypt_seed(464) == 1278852);
    assert(crypt_seed(465) == 472932); assert(crypt_seed(466) == 396240); assert(crypt_seed(467) == 1994552); assert(crypt_seed(468) == 456936);
    assert(crypt_seed(469) == 1192943); assert(crypt_seed(470) == 919119); assert(crypt_seed(471) == 245555); assert(crypt_seed(472) == 2732348);
    assert(crypt_seed(473) == 406737); assert(crypt_seed(474) == 510474); assert(crypt_seed(475) == 2292787); assert(crypt_seed(476) == 1385672);
    assert(crypt_seed(477) == 2640620); assert(crypt_seed(478) == 125549); assert(crypt_seed(479) == 1712613); assert(crypt_seed(480) == 1565200);
    assert(crypt_seed(481) == 2711996); assert(crypt_seed(482) == 658940); assert(crypt_seed(483) == 1277616); assert(crypt_seed(484) == 318432);
    assert(crypt_seed(485) == 657161); assert(crypt_seed(486) == 1055241); assert(crypt_seed(487) == 483587); assert(crypt_seed(488) == 1728115);
    assert(crypt_seed(489) == 706747); assert(crypt_seed(490) == 1661085); assert(crypt_seed(491) == 716606); assert(crypt_seed(492) == 97257);
    assert(crypt_seed(493) == 972316); assert(crypt_seed(494) == 1302774); assert(crypt_seed(495) == 666979); assert(crypt_seed(496) == 2282491);
    assert(crypt_seed(497) == 98672); assert(crypt_seed(498) == 1149191); assert(crypt_seed(499) == 1042525); assert(crypt_seed(500) == 1690290);
    assert(crypt_seed(501) == 1571028); assert(crypt_seed(502) == 644293); assert(crypt_seed(503) == 2242944); assert(crypt_seed(504) == 747703);
    assert(crypt_seed(505) == 1188179); assert(crypt_seed(506) == 323619); assert(crypt_seed(507) == 1305536); assert(crypt_seed(508) == 1012229);
    assert(crypt_seed(509) == 699493); assert(crypt_seed(510) == 754335); assert(crypt_seed(511) == 2017179); assert(crypt_seed(512) == 489108);
}

/// The crypt-table generator's seeds up to step 768, one step at a time.
proof fn lemma_generator_2()
    ensures
        crypt_seed(768) == 2640139,
        crypt_seed(639) == 2371377,
        crypt_seed(640) == 24610,
        crypt_seed(657) == 2657461,
        crypt_seed(658) == 2230674,
        crypt_seed(667) == 891736,
        crypt_seed(668) == 2415086,
        crypt_seed(677) == 779691,
        crypt_seed(678) == 2390476,
        crypt_seed(691) == 2390299,
        crypt_seed(692) == 2389860,
        crypt_seed(693) == 2334985,
        crypt_seed(694) == 1068016,
        crypt_seed(695) == 2080462,
        crypt_seed(696) == 10874,
        crypt_seed(697) == 1359253,
        crypt_seed(698) == 2134448,
        crypt_seed(701) == 1521771,
        crypt_seed(702) == 79574,
        crypt_seed(703) == 1558144,
        crypt_seed(704) == 1829996,
        crypt_seed(705) == 2257060,
        crypt_seed(706) == 2512203,
        crypt_seed(727) == 262790,
        crypt_seed(728) == 2090520,
        crypt_seed(731) == 543420,
        crypt_seed(732) == 818631,
        crypt_seed(733) == 1665570,
        crypt_seed(734) == 1277231,
        crypt_seed(735) == 270307,
        crypt_seed(736) == 233942,
        crypt_seed(757) == 554316,
        crypt_seed(758) == 2180631,
        crypt_seed(761) == 2777272,
        crypt_seed(762) == 429831,
        crypt_seed(763) == 601021,
        crypt_seed(764) == 2426350,
        crypt_seed(765) == 1303829,
        crypt_seed(766) == 798854,
        crypt_seed(767) == 1989648,
{
    lemma_generator_1();
    assert(crypt_seed(513) == 2418240); assert(crypt_seed(514) == 290079); assert(crypt_seed(515) == 2705442); assert(crypt_seed(516) == 2635893);
    assert(crypt_seed(517) == 2330877); assert(crypt_seed(518) == 554516); assert(crypt_seed(519) == 2205631); assert(crypt_seed(520) == 1675984);
    assert(crypt_seed(521) == 2578981); assert(crypt_seed(522) == 809283); assert(crypt_seed(523) == 497070); assert(crypt_seed(524) == 617287);
    assert(crypt_seed(525) == 1663397); assert(crypt_seed(526) == 1005606); assert(crypt_seed(527) == 2667821); assert(crypt_seed(528) == 729471);
    assert(crypt_seed(529) == 1705382); assert(crypt_seed(530) == 661325); assert(crypt_seed(531) == 1575741); assert(crypt_seed(532) == 1233418);
    assert(crypt_seed(533) == 386088); assert(crypt_seed(534) == 725552); assert(crypt_seed(535) == 1215507); assert(crypt_seed(536) == 943416);
    assert(crypt_seed(537) == 486477); assert(crypt_seed(538) == 2089365); assert(crypt_seed(539) == 1123749); assert(crypt_seed(540) == 658478);
    assert(crypt_seed(541) == 1219866); assert(crypt_seed(542) == 1488291); assert(crypt_seed(543) == 1486980); assert(crypt_seed(544) == 1323105);
    assert(crypt_seed(545) == 412151); assert(crypt_seed(546) == 1187224); assert(crypt_seed(547) == 204244); assert(crypt_seed(548) == 364676);
    assert(crypt_seed(549) == 845255); assert(crypt_seed(550) == 2197367); assert(crypt_seed(551) == 642984); assert(crypt_seed(552) == 2079319);
    assert(crypt_seed(553) == 2664202); assert(crypt_seed(554) == 277096); assert(crypt_seed(555) == 1082567); assert(crypt_seed(556) == 1103134);
    assert(crypt_seed(557) == 877806); assert(crypt_seed(558) == 673836); assert(crypt_seed(559) == 343413); assert(crypt_seed(560) == 983583);
    assert(crypt_seed(561) == 2711149); assert(crypt_seed(562) == 553065); assert(crypt_seed(563) == 2024256); assert(crypt_seed(564) == 1373733);
    assert(crypt_seed(565) == 1148245); assert(crypt_seed(566) == 924275); assert(crypt_seed(567) == 890055); assert(crypt_seed(568) == 2204961);
    assert(crypt_seed(569) == 1592234); assert(crypt_seed(570) == 498840); assert(crypt_seed(571) == 838537); assert(crypt_seed(572) == 1357617);
    assert(crypt_seed(573) == 1929948); assert(crypt_seed(574) == 770045); assert(crypt_seed(575) == 1184726); assert(crypt_seed(576) == 2688197);
    assert(crypt_seed(577) == 480268); assert(crypt_seed(578) == 1313240); assert(crypt_seed(579) == 1975229); assert(crypt_seed(580) == 837764);
    assert(crypt_seed(581) == 1260992); assert(crypt_seed(582) == 1036635); assert(crypt_seed(583) == 954040); assert(crypt_seed(584) == 1814477);
    assert(crypt_seed(585) == 317185); assert(crypt_seed(586) == 501286); assert(crypt_seed(587) == 1144287); assert(crypt_seed(588) == 429525);
    assert(crypt_seed(589) == 562771); assert(crypt_seed(590) == 441303); assert(crypt_seed(591) == 2035021); assert(crypt_seed(592) == 2719358);
    assert(crypt_seed(593) == 1579190); assert(crypt_seed(594) == 1664543); assert(crypt_seed(595) == 1148856); assert(crypt_seed(596) == 1000650);
    assert(crypt_seed(597) == 2048321); assert(crypt_seed(598) == 1585655); assert(crypt_seed(599) == 2472668); assert(crypt_seed(600) == 1501173);
    assert(crypt_seed(601) == 301027); assert(crypt_seed(602) == 1277739); assert(crypt_seed(603) == 333807); assert(crypt_seed(604) == 2579036);
    assert(crypt_seed(605) == 816158); assert(crypt_seed(606) == 1356445); assert(crypt_seed(607) == 1783448); assert(crypt_seed(608) == 2030966);
    assert(crypt_seed(609) == 2212483); assert(crypt_seed(610) == 2532484); assert(crypt_seed(611) == 589564); assert(crypt_seed(612) == 994225);
    assert(crypt_seed(613) == 1245196); assert(crypt_seed(614) == 1858338); assert(crypt_seed(615) == 207404); assert(crypt_seed(616) == 759676);
    assert(crypt_seed(617) == 2684804); assert(crypt_seed(618) == 56143); assert(crypt_seed(619) == 1425472); assert(crypt_seed(620) == 2023214);
    assert(crypt_seed(621) == 1243483); assert(crypt_seed(622) == 1644213); assert(crypt_seed(623) == 1403809); assert(crypt_seed(624) == 2111542);
    assert(crypt_seed(625) == 1099671); assert(crypt_seed(626) == 444931); assert(crypt_seed(627) == 2488521); assert(crypt_seed(628) == 686595);
    assert(crypt_seed(629) == 1938288); assert(crypt_seed(630) == 1812545); assert(crypt_seed(631) == 75685); assert(crypt_seed(632) == 1072019);
    assert(crypt_seed(633) == 2580837); assert(crypt_seed(634) == 1041283); assert(crypt_seed(635) == 1535040); assert(crypt_seed(636) == 1738199);
    assert(crypt_seed(637) == 1967247); assert(crypt_seed(638) == 2636217); assert(crypt_seed(639) == 2371377); assert(crypt_seed(640) == 24610);
    assert(crypt_seed(641) == 280050); assert(crypt_seed(642) == 1451817); assert(crypt_seed(643) == 2520136); assert(crypt_seed(644) == 1842267);
    assert(crypt_seed(645) == 994732); assert(crypt_seed(646) == 1308571); assert(crypt_seed(647) == 1391604); assert(crypt_seed(648) == 585917);
    assert(crypt_seed(649) == 538350); assert(crypt_seed(650) == 184881); assert(crypt_seed(651) == 740504); assert(crypt_seed(652) == 288304);
    assert(crypt_seed(653) == 2483567); assert(crypt_seed(654) == 67345); assert(crypt_seed(655) == 29519); assert(crypt_seed(656) == 893675);
    assert(crypt_seed(657) == 2657461); assert(crypt_seed(658) == 2230674); assert(crypt_seed(659) == 2010156); assert(crypt_seed(660) == 2407436);
    assert(crypt_seed(661) == 1735782); assert(crypt_seed(662) == 1665122); assert(crypt_seed(663) == 1221231); assert(crypt_seed(664) == 1658916);
    assert(crypt_seed(665) == 445481); assert(crypt_seed(666) == 2557271); assert(crypt_seed(667) == 891736); assert(crypt_seed(668) == 2415086);
    assert(crypt_seed(669) == 2692032); assert(crypt_seed(670) == 959643); assert(crypt_seed(671) == 2514852); assert(crypt_seed(672) == 1181767);
    assert(crypt_seed(673) == 2318322); assert(crypt_seed(674) == 1781344); assert(crypt_seed(675) == 1767966); assert(crypt_seed(676) == 95716);
    assert(crypt_seed(677) == 779691); assert(crypt_seed(678) == 2390476); assert(crypt_seed(679) == 2411985); assert(crypt_seed(680) == 2304407);
    assert(crypt_seed(681) == 41969); assert(crypt_seed(682) == 2449925); assert(crypt_seed(683) == 1454501); assert(crypt_seed(684) == 59433);
    assert(crypt_seed(685) == 1836722); assert(crypt_seed(686) == 301607); assert(crypt_seed(687) == 1350239); assert(crypt_seed(688) == 1007698);
    assert(crypt_seed(689) == 133118); assert(crypt_seed(690) == 2658738); assert(crypt_seed(691) == 2390299); assert(crypt_seed(692) == 2389860);
    assert(crypt_seed(693) == 2334985); assert(crypt_seed(694) == 1068016); assert(crypt_seed(695) == 2080462); assert(crypt_seed(696) == 10874);
    assert(crypt_seed(697) == 1359253); assert(crypt_seed(698) == 2134448); assert(crypt_seed(699) == 1166718); assert(crypt_seed(700) == 437197);
    assert(crypt_seed(701) == 1521771); assert(crypt_seed(702) == 79574); assert(crypt_seed(703) == 1558144); assert(crypt_seed(704) == 1829996);
    assert(crypt_seed(705) == 2257060); assert(crypt_seed(706) == 2512203); assert(crypt_seed(707) == 850642); assert(crypt_seed(708) == 74539);
    assert(crypt_seed(709) == 928769); assert(crypt_seed(710) == 1451805); assert(crypt_seed(711) == 2518636); assert(crypt_seed(712) == 1654767);
    assert(crypt_seed(713) == 2723059); assert(crypt_seed(714) == 2041815); assert(crypt_seed(715) == 772405); assert(crypt_seed(716) == 1479726);
    assert(crypt_seed(717) == 416355); assert(crypt_seed(718) == 1712724); assert(crypt_seed(719) == 1579075); assert(crypt_seed(720) == 1650168);
    assert(crypt_seed(721) == 2148184); assert(crypt_seed(722) == 87515); assert(crypt_seed(723) == 2550769); assert(crypt_seed(724) == 78986);
    assert(crypt_seed(725) == 1484644); assert(crypt_seed(726) == 1031105); assert(crypt_seed(727) == 262790); assert(crypt_seed(728) == 2090520);
    assert(crypt_seed(729) == 1268124); assert(crypt_seed(730) == 1928135); assert(crypt_seed(731) == 543420); assert(crypt_seed(732) == 818631);
    assert(crypt_seed(733) == 1665570); assert(crypt_seed(734) == 1277231); assert(crypt_seed(735) == 270307); assert(crypt_seed(736) == 233942);
    assert(crypt_seed(737) == 1280723); assert(crypt_seed(738) == 706807); assert(crypt_seed(739) == 1668585); assert(crypt_seed(740) == 1654106);
    assert(crypt_seed(741) == 2640434); assert(crypt_seed(742) == 102299); assert(crypt_seed(743) == 1602566); assert(crypt_seed(744) == 1790340);
    assert(crypt_seed(745) == 96263); assert(crypt_seed(746) == 848066); assert(crypt_seed(747) == 2548742); assert(crypt_seed(748) == 2621814);
    assert(crypt_seed(749) == 571002); assert(crypt_seed(750) == 1470178); assert(crypt_seed(751) == 2019058); assert(crypt_seed(752) == 723983);
    assert(crypt_seed(753) == 1019382); assert(crypt_seed(754) == 1593618); assert(crypt_seed(755) == 671840); assert(crypt_seed(756) == 93913);
    assert(crypt_seed(757) == 554316); assert(crypt_seed(758) == 2180631); assert(crypt_seed(759) == 1347187); assert(crypt_seed(760) == 626198);
    assert(crypt_seed(761) == 2777272); assert(crypt_seed(762) == 429831); assert(crypt_seed(763) == 601021); assert(crypt_seed(764) == 2426350);
    assert(crypt_seed(765) == 1303829); assert(crypt_seed(766) == 798854); assert(crypt_seed(767) == 1989648); assert(crypt_seed(768) == 2640139);
}

/// The crypt-table generator's seeds up to step 1024, one step at a time.
proof fn lemma_generator_3()
    ensures
        crypt_seed(1024) == 1204441,
        crypt_seed(797) == 2054005,
        crypt_seed(798) == 2296155,
        crypt_seed(831) == 1763180,
        crypt_seed(832) == 2293669,
        crypt_seed(833) == 1495922,
        crypt_seed(834) == 2440855,
        crypt_seed(835) == 320751,
        crypt_seed(836) == 947036,
        crypt_seed(837) == 938977,
        crypt_seed(838) == 2727805,
        crypt_seed(841) == 1598031,
        crypt_seed(842) == 1223465,
        crypt_seed(843) == 1938166,
        crypt_seed(844) == 1797295,
        crypt_seed(845) == 965638,
        crypt_seed(846) == 468024,
        crypt_seed(847) == 2578943,
        crypt_seed(848) == 804533,
{
    lemma_generator_2();
    assert(crypt_seed(769) == 65424); assert(crypt_seed(770) == 2585597); assert(crypt_seed(771) == 1636283); assert(crypt_seed(772) == 412559);
    assert(crypt_seed(773) == 1238224); assert(crypt_seed(774) == 986838); assert(crypt_seed(775) == 321821); assert(crypt_seed(776) == 1080786);
    assert(crypt_seed(777) == 880509); assert(crypt_seed(778) == 1011711); assert(crypt_seed(779) == 634743); assert(crypt_seed(780) == 1049194);
    assert(crypt_seed(781) == 2523915); assert(crypt_seed(782) == 2314642); assert(crypt_seed(783) == 1321344); assert(crypt_seed(784) == 192026);
    assert(crypt_seed(785) == 1633629); assert(crypt_seed(786) == 80809); assert(crypt_seed(787) == 1712519); assert(crypt_seed(788) == 1553450);
    assert(crypt_seed(789) == 1243246); assert(crypt_seed(790) == 1614588); assert(crypt_seed(791) == 496887); assert(crypt_seed(792) == 594412);
    assert(crypt_seed(793) == 1600225); assert(crypt_seed(794) == 1497715); assert(crypt_seed(795) == 2664980); assert(crypt_seed(796) == 374346);
    assert(crypt_seed(797) == 2054005); assert(crypt_seed(798) == 2296155); assert(crypt_seed(799) == 1806672); assert(crypt_seed(800) == 2137763);
    assert(crypt_seed(801) == 1581093); assert(crypt_seed(802) == 1902418); assert(crypt_seed(803) == 124998); assert(crypt_seed(804) == 1643738);
    assert(crypt_seed(805) == 1344434); assert(crypt_seed(806) == 282073); assert(crypt_seed(807) == 1704692); assert(crypt_seed(808) == 575075);
    assert(crypt_seed(809) == 1979303); assert(crypt_seed(810) == 1347014); assert(crypt_seed(811) == 604573); assert(crypt_seed(812) == 74147);
    assert(crypt_seed(813) == 879769); assert(crypt_seed(814) == 919211); assert(crypt_seed(815) == 257055); assert(crypt_seed(816) == 1373645);
    assert(crypt_seed(817) == 1137245); assert(crypt_seed(818) == 2345478); assert(crypt_seed(819) == 2379641); assert(crypt_seed(820) == 1057610);
    assert(crypt_seed(821) == 779712); assert(crypt_seed(822) == 2393101); assert(crypt_seed(823) == 2740110); assert(crypt_seed(824) == 1376987);
    assert(crypt_seed(825) == 1554995); assert(crypt_seed(826) == 1436371); assert(crypt_seed(827) == 589386); assert(crypt_seed(828) == 971975);
    assert(crypt_seed(829) == 1260149); assert(crypt_seed(830) == 931260); assert(crypt_seed(831) == 1763180); assert(crypt_seed(832) == 2293669);
    assert(crypt_seed(833) == 1495922); assert(crypt_seed(834) == 2440855); assert(crypt_seed(835) == 320751); assert(crypt_seed(836) == 947036);
    assert(crypt_seed(837) == 938977); assert(crypt_seed(838) == 2727805); assert(crypt_seed(839) == 2635065); assert(crypt_seed(840) == 2227377);
    assert(crypt_seed(841) == 1598031); assert(crypt_seed(842) == 1223465); assert(crypt_seed(843) == 1938166); assert(crypt_seed(844) == 1797295);
    assert(crypt_seed(845) == 965638); assert(crypt_seed(846) == 468024); assert(crypt_seed(847) == 2578943); assert(crypt_seed(848) == 804533);
    assert(crypt_seed(849) == 2699523); assert(crypt_seed(850) == 1896018); assert(crypt_seed(851) == 2121201); assert(crypt_seed(852) == 2307046);
    assert(crypt_seed(853) == 371844); assert(crypt_seed(854) == 1741255); assert(crypt_seed(855) == 2349247); assert(crypt_seed(856) == 54563);
    assert(crypt_seed(857) == 1227972); assert(crypt_seed(858) == 2501541); assert(crypt_seed(859) == 2314095); assert(crypt_seed(860) == 1252969);
    assert(crypt_seed(861) == 33760); assert(crypt_seed(862) == 1423800); assert(crypt_seed(863) == 1814214); assert(crypt_seed(864) == 284310);
    assert(crypt_seed(865) == 1984317); assert(crypt_seed(866) == 1973764); assert(crypt_seed(867) == 654639); assert(crypt_seed(868) == 739991);
    assert(crypt_seed(869) == 224179); assert(crypt_seed(870) == 60348); assert(crypt_seed(871) == 1951097); assert(crypt_seed(872) == 617467);
    assert(crypt_seed(873) == 1685897); assert(crypt_seed(874) == 1021903); assert(crypt_seed(875) == 1908743); assert(crypt_seed(876) == 915623);
    assert(crypt_seed(877) == 2604758); assert(crypt_seed(878) == 1235205); assert(crypt_seed(879) == 609463); assert(crypt_seed(880) == 685397);
    assert(crypt_seed(881) == 1788538); assert(crypt_seed(882) == 2667216); assert(crypt_seed(883) == 653846); assert(crypt_seed(884) == 640866);
    assert(crypt_seed(885) == 1814569); assert(crypt_seed(886) == 328685); assert(crypt_seed(887) == 1938786); assert(crypt_seed(888) == 1874795);
    assert(crypt_seed(889) == 2264529); assert(crypt_seed(890) == 649625); assert(crypt_seed(891) == 113241); assert(crypt_seed(892) == 174113);
    assert(crypt_seed(893) == 2190707); assert(crypt_seed(894) == 2606687); assert(crypt_seed(895) == 1476330); assert(crypt_seed(896) == 2788058);
    assert(crypt_seed(897) == 1778081); assert(crypt_seed(898) == 1360091); assert(crypt_seed(899) == 2239198); assert(crypt_seed(900) == 279453);
    assert(crypt_seed(901) == 1377192); assert(crypt_seed(902) == 1580620); assert(crypt_seed(903) == 1843293); assert(crypt_seed(904) == 1122982);
    assert(crypt_seed(905) == 562603); assert(crypt_seed(906) == 420303); assert(crypt_seed(907) == 2206224); assert(crypt_seed(908) == 1750109);
    assert(crypt_seed(909) == 659794); assert(crypt_seed(910) == 1384366); assert(crypt_seed(911) == 2477370); assert(crypt_seed(912) == 2088923);
    assert(crypt_seed(913) == 1068499); assert(crypt_seed(914) == 2140837); assert(crypt_seed(915) == 1965343); assert(crypt_seed(916) == 2398217);
    assert(crypt_seed(917) == 583407); assert(crypt_seed(918) == 224600); assert(crypt_seed(919) == 112973); assert(crypt_seed(920) == 140613);
    assert(crypt_seed(921) == 799410); assert(crypt_seed(922) == 2059148); assert(crypt_seed(923) == 142827); assert(crypt_seed(924) == 1076160);
    assert(crypt_seed(925) == 302259); assert(crypt_seed(926) == 1431739); assert(crypt_seed(927) == 10386); assert(crypt_seed(928) == 1298253);
    assert(crypt_seed(929) == 101854); assert(crypt_seed(930) == 1546941); assert(crypt_seed(931) == 429621); assert(crypt_seed(932) == 574771);
    assert(crypt_seed(933) == 1941303); assert(crypt_seed(934) == 2189420); assert(crypt_seed(935) == 2445812); assert(crypt_seed(936) == 940376);
    assert(crypt_seed(937) == 106477); assert(crypt_seed(938) == 2124816); assert(crypt_seed(939) == 2758921); assert(crypt_seed(940) == 932159);
    assert(crypt_seed(941) == 1875555); assert(crypt_seed(942) == 2359529); assert(crypt_seed(943) == 1339813); assert(crypt_seed(944) == 2500651);
    assert(crypt_seed(945) == 2202845); assert(crypt_seed(946) == 1327734); assert(crypt_seed(947) == 990776); assert(crypt_seed(948) == 814071);
    assert(crypt_seed(949) == 1095570); assert(crypt_seed(950) == 2728509); assert(crypt_seed(951) == 2723065); assert(crypt_seed(952) == 2042565);
    assert(crypt_seed(953) == 866155); assert(crypt_seed(954) == 2013664); assert(crypt_seed(955) == 49733); assert(crypt_seed(956) == 624222);
    assert(crypt_seed(957) == 2530272); assert(crypt_seed(958) == 313064); assert(crypt_seed(959) == 2782364); assert(crypt_seed(960) == 1066331);
    assert(crypt_seed(961) == 1869837); assert(crypt_seed(962) == 1644779); assert(crypt_seed(963) == 1474559); assert(crypt_seed(964) == 2566683);
    assert(crypt_seed(965) == 2068236); assert(crypt_seed(966) == 1278827); assert(crypt_seed(967) == 469807); assert(crypt_seed(968) == 5615);
    assert(crypt_seed(969) == 701878); assert(crypt_seed(970) == 1052460); assert(crypt_seed(971) == 135962); assert(crypt_seed(972) == 218035);
    assert(crypt_seed(973) == 2088551); assert(crypt_seed(974) == 1021999); assert(crypt_seed(975) == 1920743); assert(crypt_seed(976) == 2415623);
    assert(crypt_seed(977) == 2759157); assert(crypt_seed(978) == 961659); assert(crypt_seed(979) == 2766852); assert(crypt_seed(980) == 1923534);
    assert(crypt_seed(981) == 2764498); assert(crypt_seed(982) == 1629284); assert(crypt_seed(983) == 2333887); assert(crypt_seed(984) == 930766);
    assert(crypt_seed(985) == 1701430); assert(crypt_seed(986) == 167325); assert(crypt_seed(987) == 1342207); assert(crypt_seed(988) == 3698);
    assert(crypt_seed(989) == 462253); assert(crypt_seed(990) == 1857568); assert(crypt_seed(991) == 111154); assert(crypt_seed(992) == 2709441);
    assert(crypt_seed(993) == 339565); assert(crypt_seed(994) == 502583); assert(crypt_seed(995) == 1306412); assert(crypt_seed(996) == 1121729);
    assert(crypt_seed(997) == 405978); assert(crypt_seed(998) == 415599); assert(crypt_seed(999) == 1618224); assert(crypt_seed(1000) == 951387);
    assert(crypt_seed(1001) == 1482852); assert(crypt_seed(1002) == 807105); assert(crypt_seed(1003) == 224820); assert(crypt_seed(1004) == 140473);
    assert(crypt_seed(1005) == 781910); assert(crypt_seed(1006) == 2667851); assert(crypt_seed(1007) == 733221); assert(crypt_seed(1008) == 2174132);
    assert(crypt_seed(1009) == 534812); assert(crypt_seed(1010) == 2538834); assert(crypt_seed(1011) == 1383314); assert(crypt_seed(1012) == 2345870);
    assert(crypt_seed(1013) == 2428641); assert(crypt_seed(1014) == 1590204); assert(crypt_seed(1015) == 245090); assert(crypt_seed(1016) == 2674223);
    assert(crypt_seed(1017) == 1529721); assert(crypt_seed(1018) == 1073324); assert(crypt_seed(1019) == 2743962); assert(crypt_seed(1020) == 1858487);
    assert(crypt_seed(1021) == 226029); assert(crypt_seed(1022) == 291598); assert(crypt_seed(1023) == 99114); assert(crypt_seed(1024) == 1204441);
}

/// The crypt-table generator's seeds up to step 1280, one step at a time.
proof fn lemma_generator_4()
    ensures
        crypt_seed(1280) == 1055416,
        crypt_seed(1129) == 1102750,
        crypt_seed(1130) == 829806,
{
    lemma_generator_3();
    assert(crypt_seed(1025) == 2356369); assert(crypt_seed(1026) == 944813); assert(crypt_seed(1027) == 661102); assert(crypt_seed(1028) == 1547866);
    assert(crypt_seed(1029) == 545246); assert(crypt_seed(1030) == 1046881); assert(crypt_seed(1031) == 2234790); assert(crypt_seed(1032) == 2524656);
    assert(crypt_seed(1033) == 2407267); assert(crypt_seed(1034) == 1714657); assert(crypt_seed(1035) == 1820700); assert(crypt_seed(1036) == 1095060);
    assert(crypt_seed(1037) == 2664759); assert(crypt_seed(1038) == 346721); assert(crypt_seed(1039) == 1397083); assert(crypt_seed(1040) == 1270792);
    assert(crypt_seed(1041) == 2261635); assert(crypt_seed(1042) == 287875); assert(crypt_seed(1043) == 2429942); assert(crypt_seed(1044) == 1752829);
    assert(crypt_seed(1045) == 999794); assert(crypt_seed(1046) == 1941321); assert(crypt_seed(1047) == 2191670); assert(crypt_seed(1048) == 2727062);
    assert(crypt_seed(1049) == 2542190); assert(crypt_seed(1050) == 1802814); assert(crypt_seed(1051) == 1655513); assert(crypt_seed(1052) == 20106);
    assert(crypt_seed(1053) == 2513253); assert(crypt_seed(1054) == 981892); assert(crypt_seed(1055) == 2499774); assert(crypt_seed(1056) == 2093220);
    assert(crypt_seed(1057) == 1605624); assert(crypt_seed(1058) == 2172590); assert(crypt_seed(1059) == 342062); assert(crypt_seed(1060) == 814708);
    assert(crypt_seed(1061) == 1175195); assert(crypt_seed(1062) == 1496822); assert(crypt_seed(1063) == 2553355); assert(crypt_seed(1064) == 402236);
    assert(crypt_seed(1065) == 2744052); assert(crypt_seed(1066) == 1869737); assert(crypt_seed(1067) == 1632279); assert(crypt_seed(1068) == 2708262);
    assert(crypt_seed(1069) == 192190); assert(crypt_seed(1070) == 1654129); assert(crypt_seed(1071) == 2643309); assert(crypt_seed(1072) == 461674);
    assert(crypt_seed(1073) == 1785193); assert(crypt_seed(1074) == 2249091); assert(crypt_seed(1075) == 1516078); assert(crypt_seed(1076) == 2164152);
    assert(crypt_seed(1077) == 2083515); assert(crypt_seed(1078) == 392499); assert(crypt_seed(1079) == 1526927); assert(crypt_seed(1080) == 724074);
    assert(crypt_seed(1081) == 1030757); assert(crypt_seed(1082) == 219290); assert(crypt_seed(1083) == 2245426); assert(crypt_seed(1084) == 1057953);
    assert(crypt_seed(1085) == 822587); assert(crypt_seed(1086) == 2160070); assert(crypt_seed(1087) == 1573265); assert(crypt_seed(1088) == 923918);
    assert(crypt_seed(1089) == 845430); assert(crypt_seed(1090) == 2219242); assert(crypt_seed(1091) == 581156); assert(crypt_seed(1092) == 2739428);
    assert(crypt_seed(1093) == 1291737); assert(crypt_seed(1094) == 2083557); assert(crypt_seed(1095) == 397749); assert(crypt_seed(1096) == 2183177);
    assert(crypt_seed(1097) == 1665437); assert(crypt_seed(1098) == 1260606); assert(crypt_seed(1099) == 988385); assert(crypt_seed(1100) == 515196);
    assert(crypt_seed(1101) == 86834); assert(crypt_seed(1102) == 2465644); assert(crypt_seed(1103) == 623173); assert(crypt_seed(1104) == 2399147);
    assert(crypt_seed(1105) == 699657); assert(crypt_seed(1106) == 774835); assert(crypt_seed(1107) == 1783476); assert(crypt_seed(1108) == 2034466);
    assert(crypt_seed(1109) == 2649983); assert(crypt_seed(1110) == 1295924); assert(crypt_seed(1111) == 2606932); assert(crypt_seed(1112) == 1506955);
    assert(crypt_seed(1113) == 1023777); assert(crypt_seed(1114) == 2142993); assert(crypt_seed(1115) == 2234843); assert(crypt_seed(1116) == 2531281);
    assert(crypt_seed(1117) == 439189); assert(crypt_seed(1118) == 1770771); assert(crypt_seed(1119) == 446341); assert(crypt_seed(1120) == 2664771);
    assert(crypt_seed(1121) == 348221); assert(crypt_seed(1122) == 1584583); assert(crypt_seed(1123) == 2338668); assert(crypt_seed(1124) == 1528391);
    assert(crypt_seed(1125) == 907074); assert(crypt_seed(1126) == 1536133); assert(crypt_seed(1127) == 1874824); assert(crypt_seed(1128) == 2268154);
    assert(crypt_seed(1129) == 1102750); assert(crypt_seed(1130) == 829806); assert(crypt_seed(1131) == 266242); assert(crypt_seed(1132) == 2522020);
    assert(crypt_seed(1133) == 2077767); assert(crypt_seed(1134) == 2470202); assert(crypt_seed(1135) == 1192923); assert(crypt_seed(1136) == 916619);
    assert(crypt_seed(1137) == 2729258); assert(crypt_seed(1138) == 20487); assert(crypt_seed(1139) == 2560878); assert(crypt_seed(1140) == 1342611);
    assert(crypt_seed(1141) == 54198); assert(crypt_seed(1142) == 1182347); assert(crypt_seed(1143) == 2390822); assert(crypt_seed(1144) == 2455235);
    assert(crypt_seed(1145) == 2118251); assert(crypt_seed(1146) == 1938296); assert(crypt_seed(1147) == 1813545); assert(crypt_seed(1148) == 200685);
    assert(crypt_seed(1149) == 2716004); assert(crypt_seed(1150) == 1159940); assert(crypt_seed(1151) == 2386150); assert(crypt_seed(1152) == 1871235);
    assert(crypt_seed(1153) == 1819529); assert(crypt_seed(1154) == 948685); assert(crypt_seed(1155) == 1145102); assert(crypt_seed(1156) == 531400);
    assert(crypt_seed(1157) == 2112334); assert(crypt_seed(1158) == 1198671); assert(crypt_seed(1159) == 1635119); assert(crypt_seed(1160) == 267059);
    assert(crypt_seed(1161) == 2624145); assert(crypt_seed(1162) == 862377); assert(crypt_seed(1163) == 1541414); assert(crypt_seed(1164) == 2534949);
    assert(crypt_seed(1165) == 897689); assert(crypt_seed(1166) == 363008); assert(crypt_seed(1167) == 636755); assert(crypt_seed(1168) == 1300694);
    assert(crypt_seed(1169) == 406979); assert(crypt_seed(1170) == 540724); assert(crypt_seed(1171) == 481631); assert(crypt_seed(1172) == 1483615);
    assert(crypt_seed(1173) == 902480); assert(crypt_seed(1174) == 961883); assert(crypt_seed(1175) == 2794852); assert(crypt_seed(1176) == 2627331);
    assert(crypt_seed(1177) == 1260627); assert(crypt_seed(1178) == 991010); assert(crypt_seed(1179) == 843321); assert(crypt_seed(1180) == 1955617);
    assert(crypt_seed(1181) == 1182467); assert(crypt_seed(1182) == 2405822); assert(crypt_seed(1183) == 1534032); assert(crypt_seed(1184) == 1612199);
    assert(crypt_seed(1185) == 198262); assert(crypt_seed(1186) == 2413129); assert(crypt_seed(1187) == 2447407); assert(crypt_seed(1188) == 1139751);
    assert(crypt_seed(1189) == 2658728); assert(crypt_seed(1190) == 2389049); assert(crypt_seed(1191) == 2233610); assert(crypt_seed(1192) == 2377156);
    assert(crypt_seed(1193) == 746985); assert(crypt_seed(1194) == 1098429); assert(crypt_seed(1195) == 289681); assert(crypt_seed(1196) == 2655692);
    assert(crypt_seed(1197) == 2009549); assert(crypt_seed(1198) == 2331561); assert(crypt_seed(1199) == 640016); assert(crypt_seed(1200) == 1708319);
    assert(crypt_seed(1201) == 1028450); assert(crypt_seed(1202) == 2727118); assert(crypt_seed(1203) == 2549190); assert(crypt_seed(1204) == 2677814);
    assert(crypt_seed(1205) == 1978596); assert(crypt_seed(1206) == 1258639); assert(crypt_seed(1207) == 742510); assert(crypt_seed(1208) == 539054);
    assert(crypt_seed(1209) == 272881); assert(crypt_seed(1210) == 555692); assert(crypt_seed(1211) == 2352631); assert(crypt_seed(1212) == 477563);
    assert(crypt_seed(1213) == 975115); assert(crypt_seed(1214) == 1652649); assert(crypt_seed(1215) == 2458309); assert(crypt_seed(1216) == 2502501);
    assert(crypt_seed(1217) == 2434095); assert(crypt_seed(1218) == 2271954); assert(crypt_seed(1219) == 1577750); assert(crypt_seed(1220) == 1484543);
    assert(crypt_seed(1221) == 1018480); assert(crypt_seed(1222) == 1480868); assert(crypt_seed(1223) == 559105); assert(crypt_seed(1224) == 2779256);
    assert(crypt_seed(1225) == 677831); assert(crypt_seed(1226) == 842788); assert(crypt_seed(1227) == 1888992); assert(crypt_seed(1228) == 1242951);
    assert(crypt_seed(1229) == 1577713); assert(crypt_seed(1230) == 1479918); assert(crypt_seed(1231) == 440355); assert(crypt_seed(1232) == 1916521);
    assert(crypt_seed(1233) == 1887873); assert(crypt_seed(1234) == 1103076); assert(crypt_seed(1235) == 870556); assert(crypt_seed(1236) == 2563789);
    assert(crypt_seed(1237) == 1706486); assert(crypt_seed(1238) == 799325); assert(crypt_seed(1239) == 2048523); assert(crypt_seed(1240) == 1610905);
    assert(crypt_seed(1241) == 36512); assert(crypt_seed(1242) == 1767800); assert(crypt_seed(1243) == 74966); assert(crypt_seed(1244) == 982144);
    assert(crypt_seed(1245) == 2531274); assert(crypt_seed(1246) == 438314); assert(crypt_seed(1247) == 1661396); assert(crypt_seed(1248) == 755481);
    assert(crypt_seed(1249) == 2160429); assert(crypt_seed(1250) == 1618140); assert(crypt_seed(1251) == 940887); assert(crypt_seed(1252) == 170352);
    assert(crypt_seed(1253) == 1720582); assert(crypt_seed(1254) == 2561325); assert(crypt_seed(1255) == 1398486); assert(crypt_seed(1256) == 1446167);
    assert(crypt_seed(1257) == 1813886); assert(crypt_seed(1258) == 243310); assert(crypt_seed(1259) == 2451723); assert(crypt_seed(1260) == 1679251);
    assert(crypt_seed(1261) == 191153); assert(crypt_seed(1262) == 1524504); assert(crypt_seed(1263) == 421199); assert(crypt_seed(1264) == 2318224);
    assert(crypt_seed(1265) == 1769094); assert(crypt_seed(1266) == 236716); assert(crypt_seed(1267) == 1627473); assert(crypt_seed(1268) == 2107512);
    assert(crypt_seed(1269) == 595921); assert(crypt_seed(1270) == 1788850); assert(crypt_seed(1271) == 2706216); assert(crypt_seed(1272) == 2732643);
    assert(crypt_seed(1273) == 443612); assert(crypt_seed(1274) == 2323646); assert(crypt_seed(1275) == 2446844); assert(crypt_seed(1276) == 1069376);
    assert(crypt_seed(1277) == 2250462); assert(crypt_seed(1278) == 1687453); assert(crypt_seed(1279) == 1216403); assert(crypt_seed(1280) == 1055416);
}

/// The crypt-table generator's seeds up to step 1536, one step at a time.
proof fn lemma_generator_5()
    ensures
        crypt_seed(1536) == 1287399,
{
    lemma_generator_4();
    assert(crypt_seed(1281) == 505462); assert(crypt_seed(1282) == 1666287); assert(crypt_seed(1283) == 1366856); assert(crypt_seed(1284) == 288620);
    assert(crypt_seed(1285) == 2523067); assert(crypt_seed(1286) == 2208642); assert(crypt_seed(1287) == 2052359); assert(crypt_seed(1288) == 2090405);
    assert(crypt_seed(1289) == 1253749); assert(crypt_seed(1290) == 131260); assert(crypt_seed(1291) == 2426488); assert(crypt_seed(1292) == 1321079);
    assert(crypt_seed(1293) == 158901); assert(crypt_seed(1294) == 289207); assert(crypt_seed(1295) == 2596442); assert(crypt_seed(1296) == 195705);
    assert(crypt_seed(1297) == 2093504); assert(crypt_seed(1298) == 1641124); assert(crypt_seed(1299) == 1017684); assert(crypt_seed(1300) == 1381368);
    assert(crypt_seed(1301) == 2102620); assert(crypt_seed(1302) == 2780624); assert(crypt_seed(1303) == 848831); assert(crypt_seed(1304) == 2644367);
    assert(crypt_seed(1305) == 593924); assert(crypt_seed(1306) == 1539225); assert(crypt_seed(1307) == 2261324); assert(crypt_seed(1308) == 249000);
    assert(crypt_seed(1309) == 366770); assert(crypt_seed(1310) == 1107005); assert(crypt_seed(1311) == 1361681); assert(crypt_seed(1312) == 2437948);
    assert(crypt_seed(1313) == 2753579); assert(crypt_seed(1314) == 264409); assert(crypt_seed(1315) == 2292895); assert(crypt_seed(1316) == 1399172);
    assert(crypt_seed(1317) == 1531917); assert(crypt_seed(1318) == 1347824); assert(crypt_seed(1319) == 705823); assert(crypt_seed(1320) == 1545585);
    assert(crypt_seed(1321) == 260121); assert(crypt_seed(1322) == 1756895); assert(crypt_seed(1323) == 1508044); assert(crypt_seed(1324) == 1159902);
    assert(crypt_seed(1325) == 2381400); assert(crypt_seed(1326) == 1277485); assert(crypt_seed(1327) == 302057); assert(crypt_seed(1328) == 1406489);
    assert(crypt_seed(1329) == 2446542); assert(crypt_seed(1330) == 1031626); assert(crypt_seed(1331) == 327915); assert(crypt_seed(1332) == 1842536);
    assert(crypt_seed(1333) == 1028357); assert(crypt_seed(1334) == 2715493); assert(crypt_seed(1335) == 1096065); assert(crypt_seed(1336) == 2790384);
    assert(crypt_seed(1337) == 2068831); assert(crypt_seed(1338) == 1353202); assert(crypt_seed(1339) == 1378073); assert(crypt_seed(1340) == 1690745);
    assert(crypt_seed(1341) == 1627903); assert(crypt_seed(1342) == 2161262); assert(crypt_seed(1343) == 1722265); assert(crypt_seed(1344) == 2771700);
    assert(crypt_seed(1345) == 2529534); assert(crypt_seed(1346) == 220814); assert(crypt_seed(1347) == 2435926); assert(crypt_seed(1348) == 2500829);
    assert(crypt_seed(1349) == 2225095); assert(crypt_seed(1350) == 1312781); assert(crypt_seed(1351) == 1917854); assert(crypt_seed(1352) == 2054498);
    assert(crypt_seed(1353) == 2357780); assert(crypt_seed(1354) == 1121188); assert(crypt_seed(1355) == 338353); assert(crypt_seed(1356) == 351083);
    assert(crypt_seed(1357) == 1942333); assert(crypt_seed(1358) == 2318170); assert(crypt_seed(1359) == 1762344); assert(crypt_seed(1360) == 2189169);
    assert(crypt_seed(1361) == 2414437); assert(crypt_seed(1362) == 2610907); assert(crypt_seed(1363) == 2003830); assert(crypt_seed(1364) == 1616686);
    assert(crypt_seed(1365) == 759137); assert(crypt_seed(1366) == 2617429); assert(crypt_seed(1367) == 22877); assert(crypt_seed(1368) == 63425);
    assert(crypt_seed(1369) == 2335722); assert(crypt_seed(1370) == 1160141); assert(crypt_seed(1371) == 2411275); assert(crypt_seed(1372) == 2215657);
    assert(crypt_seed(1373) == 133031); assert(crypt_seed(1374) == 2647863); assert(crypt_seed(1375) == 1030924); assert(crypt_seed(1376) == 240165);
    assert(crypt_seed(1377) == 2058598); assert(crypt_seed(1378) == 74077); assert(crypt_seed(1379) == 871019); assert(crypt_seed(1380) == 2621664);
    assert(crypt_seed(1381) == 552252); assert(crypt_seed(1382) == 1922631); assert(crypt_seed(1383) == 2651623); assert(crypt_seed(1384) == 1500924);
    assert(crypt_seed(1385) == 269902); assert(crypt_seed(1386) == 183317); assert(crypt_seed(1387) == 545004); assert(crypt_seed(1388) == 1016631);
    assert(crypt_seed(1389) == 1249743); assert(crypt_seed(1390) == 2426713); assert(crypt_seed(1391) == 1349204); assert(crypt_seed(1392) == 878323);
    assert(crypt_seed(1393) == 738461); assert(crypt_seed(1394) == 32929); assert(crypt_seed(1395) == 1319925); assert(crypt_seed(1396) == 14651);
    assert(crypt_seed(1397) == 1831378); assert(crypt_seed(1398) == 2429810); assert(crypt_seed(1399) == 1736329); assert(crypt_seed(1400) == 1733497);
    assert(crypt_seed(1401) == 1379497); assert(crypt_seed(1402) == 1868745); assert(crypt_seed(1403) == 1508279); assert(crypt_seed(1404) == 1189277);
    assert(crypt_seed(1405) == 460869); assert(crypt_seed(1406) == 1684568); assert(crypt_seed(1407) == 855778); assert(crypt_seed(1408) == 716539);
    assert(crypt_seed(1409) == 88882); assert(crypt_seed(1410) == 2721644); assert(crypt_seed(1411) == 1864940); assert(crypt_seed(1412) == 1032654);
    assert(crypt_seed(1413) == 456415); assert(crypt_seed(1414) == 1127818); assert(crypt_seed(1415) == 1167103); assert(crypt_seed(1416) == 485322);
    assert(crypt_seed(1417) == 1944990); assert(crypt_seed(1418) == 2650295); assert(crypt_seed(1419) == 1334924); assert(crypt_seed(1420) == 1889526);
    assert(crypt_seed(1421) == 1309701); assert(crypt_seed(1422) == 1532854); assert(crypt_seed(1423) == 1464949); assert(crypt_seed(1424) == 1365433);
    assert(crypt_seed(1425) == 110745); assert(crypt_seed(1426) == 2658316); assert(crypt_seed(1427) == 2337549); assert(crypt_seed(1428) == 1388516);
    assert(crypt_seed(1429) == 199917); assert(crypt_seed(1430) == 2620004); assert(crypt_seed(1431) == 344752); assert(crypt_seed(1432) == 1150958);
    assert(crypt_seed(1433) == 1263400); assert(crypt_seed(1434) == 1337635); assert(crypt_seed(1435) == 2228401); assert(crypt_seed(1436) == 1726031);
    assert(crypt_seed(1437) == 446247); assert(crypt_seed(1438) == 2653021); assert(crypt_seed(1439) == 1675674); assert(crypt_seed(1440) == 2540231);
    assert(crypt_seed(1441) == 1557939); assert(crypt_seed(1442) == 1804371); assert(crypt_seed(1443) == 1850138); assert(crypt_seed(1444) == 1978607);
    assert(crypt_seed(1445) == 1260014); assert(crypt_seed(1446) == 914385); assert(crypt_seed(1447) == 2450008); assert(crypt_seed(1448) == 1464876);
    assert(crypt_seed(1449) == 1356308); assert(crypt_seed(1450) == 1766323); assert(crypt_seed(1451) == 2686544); assert(crypt_seed(1452) == 273643);
    assert(crypt_seed(1453) == 650942); assert(crypt_seed(1454) == 277866); assert(crypt_seed(1455) == 1178817); assert(crypt_seed(1456) == 1949572);
    assert(crypt_seed(1457) == 426842); assert(crypt_seed(1458) == 227396); assert(crypt_seed(1459) == 462473); assert(crypt_seed(1460) == 1885068);
    assert(crypt_seed(1461) == 752451); assert(crypt_seed(1462) == 1781679); assert(crypt_seed(1463) == 1809841); assert(crypt_seed(1464) == 2533888);
    assert(crypt_seed(1465) == 765064); assert(crypt_seed(1466) == 562101); assert(crypt_seed(1467) == 357553); assert(crypt_seed(1468) == 2751083);
    assert(crypt_seed(1469) == 2748612); assert(crypt_seed(1470) == 2439737); assert(crypt_seed(1471) == 181001); assert(crypt_seed(1472) == 255504);
    assert(crypt_seed(1473) == 1179770); assert(crypt_seed(1474) == 2068697); assert(crypt_seed(1475) == 1336452); assert(crypt_seed(1476) == 2080526);
    assert(crypt_seed(1477) == 18874); assert(crypt_seed(1478) == 2359253); assert(crypt_seed(1479) == 1305313); assert(crypt_seed(1480) == 984354);
    assert(crypt_seed(1481) == 11321); assert(crypt_seed(1482) == 1415128); assert(crypt_seed(1483) == 730214); assert(crypt_seed(1484) == 1798257);
    assert(crypt_seed(1485) == 1085888); assert(crypt_seed(1486) == 1518259); assert(crypt_seed(1487) == 2436777); assert(crypt_seed(1488) == 2607204);
    assert(crypt_seed(1489) == 1540955); assert(crypt_seed(1490) == 2477574); assert(crypt_seed(1491) == 2114423); assert(crypt_seed(1492) == 1459796);
    assert(crypt_seed(1493) == 721308); assert(crypt_seed(1494) == 685007); assert(crypt_seed(1495) == 1739788); assert(crypt_seed(1496) == 2165872);
    assert(crypt_seed(1497) == 2298515); assert(crypt_seed(1498) == 2101672); assert(crypt_seed(1499) == 2662124); assert(crypt_seed(1500) == 17346);
    assert(crypt_seed(1501) == 2168253); assert(crypt_seed(1502) == 2596140); assert(crypt_seed(1503) == 157955); assert(crypt_seed(1504) == 170957);
    assert(crypt_seed(1505) == 1796207); assert(crypt_seed(1506) == 829638); assert(crypt_seed(1507) == 245242); assert(crypt_seed(1508) == 2693223);
    assert(crypt_seed(1509) == 1108518); assert(crypt_seed(1510) == 1550806); assert(crypt_seed(1511) == 912746); assert(crypt_seed(1512) == 2245133);
    assert(crypt_seed(1513) == 1021328); assert(crypt_seed(1514) == 1836868); assert(crypt_seed(1515) == 319857); assert(crypt_seed(1516) == 835286);
    assert(crypt_seed(1517) == 951242); assert(crypt_seed(1518) == 1464727); assert(crypt_seed(1519) == 1337683); assert(crypt_seed(1520) == 2234401);
    assert(crypt_seed(1521) == 2476031); assert(crypt_seed(1522) == 1921548); assert(crypt_seed(1523) == 2516248); assert(crypt_seed(1524) == 1356267);
    assert(crypt_seed(1525) == 1761198); assert(crypt_seed(1526) == 2045919); assert(crypt_seed(1527) == 1285405); assert(crypt_seed(1528) == 1292057);
    assert(crypt_seed(1529) == 2123557); assert(crypt_seed(1530) == 2601546); assert(crypt_seed(1531) == 833705); assert(crypt_seed(1532) == 753617);
    assert(crypt_seed(1533) == 1927429); assert(crypt_seed(1534) == 455170); assert(crypt_seed(1535) == 972193); assert(crypt_seed(1536) == 1287399);
}

/// The crypt-table generator's seeds up to step 1792, one step at a time.
proof fn lemma_generator_6()
    ensures
        crypt_seed(1792) == 810189,
{
    lemma_generator_5();
    assert(crypt_seed(1537) == 1541307); assert(crypt_seed(1538) == 2521574); assert(crypt_seed(1539) == 2022017); assert(crypt_seed(1540) == 1093858);
    assert(crypt_seed(1541) == 2514509); assert(crypt_seed(1542) == 1138892); assert(crypt_seed(1543) == 2551353); assert(crypt_seed(1544) == 151986);
    assert(crypt_seed(1545) == 2221035); assert(crypt_seed(1546) == 805281); assert(crypt_seed(1547) == 2793023); assert(crypt_seed(1548) == 2398706);
    assert(crypt_seed(1549) == 644532); assert(crypt_seed(1550) == 2272819); assert(crypt_seed(1551) == 1685875); assert(crypt_seed(1552) == 1019153);
    assert(crypt_seed(1553) == 1564993); assert(crypt_seed(1554) == 2686121); assert(crypt_seed(1555) == 220768); assert(crypt_seed(1556) == 2430176);
    assert(crypt_seed(1557) == 1782079); assert(crypt_seed(1558) == 1859841); assert(crypt_seed(1559) == 395279); assert(crypt_seed(1560) == 1874427);
    assert(crypt_seed(1561) == 2218529); assert(crypt_seed(1562) == 492031); assert(crypt_seed(1563) == 2783615); assert(crypt_seed(1564) == 1222706);
    assert(crypt_seed(1565) == 1843291); assert(crypt_seed(1566) == 1122732); assert(crypt_seed(1567) == 531353); assert(crypt_seed(1568) == 2106459);
    assert(crypt_seed(1569) == 464296); assert(crypt_seed(1570) == 2112943); assert(crypt_seed(1571) == 1274796); assert(crypt_seed(1572) == 2762135);
    assert(crypt_seed(1573) == 1333909); assert(crypt_seed(1574) == 1762651); assert(crypt_seed(1575) == 2227544); assert(crypt_seed(1576) == 1618906);
    assert(crypt_seed(1577) == 1036637); assert(crypt_seed(1578) == 954290); assert(crypt_seed(1579) == 1845727); assert(crypt_seed(1580) == 1427232);
    assert(crypt_seed(1581) == 2243214); assert(crypt_seed(1582) == 781453); assert(crypt_seed(1583) == 2610726); assert(crypt_seed(1584) == 1981205);
    assert(crypt_seed(1585) == 1584764); assert(crypt_seed(1586) == 2361293); assert(crypt_seed(1587) == 1560313); assert(crypt_seed(1588) == 2101121);
    assert(crypt_seed(1589) == 2593249); assert(crypt_seed(1590) == 2592783); assert(crypt_seed(1591) == 2534533); assert(crypt_seed(1592) == 845689);
    assert(crypt_seed(1593) == 2251617); assert(crypt_seed(1594) == 1831828); assert(crypt_seed(1595) == 2486060); assert(crypt_seed(1596) == 378970);
    assert(crypt_seed(1597) == 2632005); assert(crypt_seed(1598) == 1844877); assert(crypt_seed(1599) == 1320982); assert(crypt_seed(1600) == 146776);
    assert(crypt_seed(1601) == 1569785); assert(crypt_seed(1602) == 488918); assert(crypt_seed(1603) == 2394490); assert(crypt_seed(1604) == 117532);
    assert(crypt_seed(1605) == 710488); assert(crypt_seed(1606) == 2128710); assert(crypt_seed(1607) == 449468); assert(crypt_seed(1608) == 259443);
    assert(crypt_seed(1609) == 1672145); assert(crypt_seed(1610) == 2099106); assert(crypt_seed(1611) == 2341374); assert(crypt_seed(1612) == 1866641);
    assert(crypt_seed(1613) == 1245279); assert(crypt_seed(1614) == 1868713); assert(crypt_seed(1615) == 1504279); assert(crypt_seed(1616) == 689277);
    assert(crypt_seed(1617) == 2273538); assert(crypt_seed(1618) == 1775750); assert(crypt_seed(1619) == 1068716); assert(crypt_seed(1620) == 2167962);
    assert(crypt_seed(1621) == 2559765); assert(crypt_seed(1622) == 1203486); assert(crypt_seed(1623) == 2236994); assert(crypt_seed(1624) == 3953);
    assert(crypt_seed(1625) == 494128); assert(crypt_seed(1626) == 249537); assert(crypt_seed(1627) == 433895); assert(crypt_seed(1628) == 1109021);
    assert(crypt_seed(1629) == 1613681); assert(crypt_seed(1630) == 383512); assert(crypt_seed(1631) == 403552); assert(crypt_seed(1632) == 112349);
    assert(crypt_seed(1633) == 62613); assert(crypt_seed(1634) == 2234222); assert(crypt_seed(1635) == 2453656); assert(crypt_seed(1636) == 1920876);
    assert(crypt_seed(1637) == 2432248); assert(crypt_seed(1638) == 2041079); assert(crypt_seed(1639) == 680405); assert(crypt_seed(1640) == 1164538);
    assert(crypt_seed(1641) == 164697); assert(crypt_seed(1642) == 1013707); assert(crypt_seed(1643) == 884243); assert(crypt_seed(1644) == 1478461);
    assert(crypt_seed(1645) == 258230); assert(crypt_seed(1646) == 1520520); assert(crypt_seed(1647) == 2719402); assert(crypt_seed(1648) == 1584690);
    assert(crypt_seed(1649) == 2352043); assert(crypt_seed(1650) == 404063); assert(crypt_seed(1651) == 176224); assert(crypt_seed(1652) == 2454582);
    assert(crypt_seed(1653) == 2036626); assert(crypt_seed(1654) == 123780); assert(crypt_seed(1655) == 1491488); assert(crypt_seed(1656) == 1886605);
    assert(crypt_seed(1657) == 944576); assert(crypt_seed(1658) == 631477); assert(crypt_seed(1659) == 640944); assert(crypt_seed(1660) == 1824319);
    assert(crypt_seed(1661) == 1547435); assert(crypt_seed(1662) == 491371); assert(crypt_seed(1663) == 2701115); assert(crypt_seed(1664) == 2095018);
    assert(crypt_seed(1665) == 1830374); assert(crypt_seed(1666) == 2304310); assert(crypt_seed(1667) == 29844); assert(crypt_seed(1668) == 934300);
    assert(crypt_seed(1669) == 2143180); assert(crypt_seed(1670) == 2258218); assert(crypt_seed(1671) == 2656953); assert(crypt_seed(1672) == 2167174);
    assert(crypt_seed(1673) == 2461265); assert(crypt_seed(1674) == 75798); assert(crypt_seed(1675) == 1086144); assert(crypt_seed(1676) == 1550259);
    assert(crypt_seed(1677) == 844371); assert(crypt_seed(1678) == 2086867); assert(crypt_seed(1679) == 811499); assert(crypt_seed(1680) == 774070);
    assert(crypt_seed(1681) == 1687851); assert(crypt_seed(1682) == 1266153); assert(crypt_seed(1683) == 1681760); assert(crypt_seed(1684) == 504778);
    assert(crypt_seed(1685) == 1580787); assert(crypt_seed(1686) == 1864168); assert(crypt_seed(1687) == 936154); assert(crypt_seed(1688) == 2374930);
    assert(crypt_seed(1689) == 468735); assert(crypt_seed(1690) == 2667818); assert(crypt_seed(1691) == 729096); assert(crypt_seed(1692) == 1658507);
    assert(crypt_seed(1693) == 394356); assert(crypt_seed(1694) == 1759052); assert(crypt_seed(1695) == 1777669); assert(crypt_seed(1696) == 1308591);
    assert(crypt_seed(1697) == 1394104); assert(crypt_seed(1698) == 898417); assert(crypt_seed(1699) == 454008); assert(crypt_seed(1700) == 826943);
    assert(crypt_seed(1701) == 2704570); assert(crypt_seed(1702) == 2526893); assert(crypt_seed(1703) == 2686892); assert(crypt_seed(1704) == 317143);
    assert(crypt_seed(1705) == 496036); assert(crypt_seed(1706) == 488037); assert(crypt_seed(1707) == 2284365); assert(crypt_seed(1708) == 332922);
    assert(crypt_seed(1709) == 2468411); assert(crypt_seed(1710) == 969048); assert(crypt_seed(1711) == 894274); assert(crypt_seed(1712) == 2732336);
    assert(crypt_seed(1713) == 405237); assert(crypt_seed(1714) == 322974); assert(crypt_seed(1715) == 1224911); assert(crypt_seed(1716) == 2118916);
    assert(crypt_seed(1717) == 2021421); assert(crypt_seed(1718) == 1019358); assert(crypt_seed(1719) == 1590618); assert(crypt_seed(1720) == 296840);
    assert(crypt_seed(1721) == 754364); assert(crypt_seed(1722) == 2020804); assert(crypt_seed(1723) == 942233); assert(crypt_seed(1724) == 338602);
    assert(crypt_seed(1725) == 382208); assert(crypt_seed(1726) == 240552); assert(crypt_seed(1727) == 2106973); assert(crypt_seed(1728) == 528546);
    assert(crypt_seed(1729) == 1755584); assert(crypt_seed(1730) == 1344169); assert(crypt_seed(1731) == 248948); assert(crypt_seed(1732) == 360270);
    assert(crypt_seed(1733) == 294505); assert(crypt_seed(1734) == 462489); assert(crypt_seed(1735) == 1887068); assert(crypt_seed(1736) == 1002451);
    assert(crypt_seed(1737) == 2273446); assert(crypt_seed(1738) == 1764250); assert(crypt_seed(1739) == 2427419); assert(crypt_seed(1740) == 1437454);
    assert(crypt_seed(1741) == 724761); assert(crypt_seed(1742) == 1116632); assert(crypt_seed(1743) == 2565056); assert(crypt_seed(1744) == 1864861);
    assert(crypt_seed(1745) == 1022779); assert(crypt_seed(1746) == 2018243); assert(crypt_seed(1747) == 622108); assert(crypt_seed(1748) == 2266022);
    assert(crypt_seed(1749) == 836250); assert(crypt_seed(1750) == 1071742); assert(crypt_seed(1751) == 2546212); assert(crypt_seed(1752) == 2305564);
    assert(crypt_seed(1753) == 186594); assert(crypt_seed(1754) == 954629); assert(crypt_seed(1755) == 1888102); assert(crypt_seed(1756) == 1131701);
    assert(crypt_seed(1757) == 1652478); assert(crypt_seed(1758) == 2436934); assert(crypt_seed(1759) == 2626829); assert(crypt_seed(1760) == 1197877);
    assert(crypt_seed(1761) == 1535869); assert(crypt_seed(1762) == 1841824); assert(crypt_seed(1763) == 939357); assert(crypt_seed(1764) == 2775305);
    assert(crypt_seed(1765) == 183956); assert(crypt_seed(1766) == 624879); assert(crypt_seed(1767) == 2612397); assert(crypt_seed(1768) == 2190080);
    assert(crypt_seed(1769) == 2528312); assert(crypt_seed(1770) == 68064); assert(crypt_seed(1771) == 119394); assert(crypt_seed(1772) == 943238);
    assert(crypt_seed(1773) == 464227); assert(crypt_seed(1774) == 2104318); assert(crypt_seed(1775) == 196671); assert(crypt_seed(1776) == 2214254);
    assert(crypt_seed(1777) == 2753859); assert(crypt_seed(1778) == 299409); assert(crypt_seed(1779) == 1075489); assert(crypt_seed(1780) == 218384);
    assert(crypt_seed(1781) == 2132176); assert(crypt_seed(1782) == 882718); assert(crypt_seed(1783) == 1287836); assert(crypt_seed(1784) == 1595932);
    assert(crypt_seed(1785) == 961090); assert(crypt_seed(1786) == 2695727); assert(crypt_seed(1787) == 1421518); assert(crypt_seed(1788) == 1528964);
    assert(crypt_seed(1789) == 978699); assert(crypt_seed(1790) == 2100649); assert(crypt_seed(1791) == 2534249); assert(crypt_seed(1792) == 810189);
}

/// The crypt-table generator's seeds up to step 2048, one step at a time.
proof fn lemma_generator_7()
    ensures
        crypt_seed(2048) == 1554737,
        crypt_seed(1879) == 200629,
        crypt_seed(1880) == 2709004,
{
    lemma_generator_6();
    assert(crypt_seed(1793) == 610320); assert(crypt_seed(1794) == 792522); assert(crypt_seed(1795) == 1198148); assert(crypt_seed(1796) == 1569744);
    assert(crypt_seed(1797) == 483793); assert(crypt_seed(1798) == 1753865); assert(crypt_seed(1799) == 1129294); assert(crypt_seed(1800) == 1351603);
    assert(crypt_seed(1801) == 1178198); assert(crypt_seed(1802) == 1872197); assert(crypt_seed(1803) == 1939779); assert(crypt_seed(1804) == 1998920);
    assert(crypt_seed(1805) == 1002936); assert(crypt_seed(1806) == 2334071); assert(crypt_seed(1807) == 953766); assert(crypt_seed(1808) == 1780227);
    assert(crypt_seed(1809) == 1628341); assert(crypt_seed(1810) == 2216012); assert(crypt_seed(1811) == 177406); assert(crypt_seed(1812) == 2602332);
    assert(crypt_seed(1813) == 931955); assert(crypt_seed(1814) == 1850055); assert(crypt_seed(1815) == 1968232); assert(crypt_seed(1816) == 2759342);
    assert(crypt_seed(1817) == 984784); assert(crypt_seed(1818) == 65071); assert(crypt_seed(1819) == 2541472); assert(crypt_seed(1820) == 1713064);
    assert(crypt_seed(1821) == 1621575); assert(crypt_seed(1822) == 1370262); assert(crypt_seed(1823) == 714370); assert(crypt_seed(1824) == 2613960);
    assert(crypt_seed(1825) == 2385455); assert(crypt_seed(1826) == 1784360); assert(crypt_seed(1827) == 2144966); assert(crypt_seed(1828) == 2481468);
    assert(crypt_seed(1829) == 2601173); assert(crypt_seed(1830) == 787080); assert(crypt_seed(1831) == 517898); assert(crypt_seed(1832) == 424584);
    assert(crypt_seed(1833) == 2741349); assert(crypt_seed(1834) == 1531862); assert(crypt_seed(1835) == 1340949); assert(crypt_seed(1836) == 2642651);
    assert(crypt_seed(1837) == 379424); assert(crypt_seed(1838) == 2688755); assert(crypt_seed(1839) == 550018); assert(crypt_seed(1840) == 1643381);
    assert(crypt_seed(1841) == 1299809); assert(crypt_seed(1842) == 296354); assert(crypt_seed(1843) == 693614); assert(crypt_seed(1844) == 19460);
    assert(crypt_seed(1845) == 2432503); assert(crypt_seed(1846) == 2072954); assert(crypt_seed(1847) == 1868577); assert(crypt_seed(1848) == 1487279);
    assert(crypt_seed(1849) == 1360480); assert(crypt_seed(1850) == 2287823); assert(crypt_seed(1851) == 765172); assert(crypt_seed(1852) == 575601);
    assert(crypt_seed(1853) == 2045053); assert(crypt_seed(1854) == 1177155); assert(crypt_seed(1855) == 1741822); assert(crypt_seed(1856) == 2420122);
    assert(crypt_seed(1857) == 525329); assert(crypt_seed(1858) == 1353459); assert(crypt_seed(1859) == 1410198); assert(crypt_seed(1860) == 113964);
    assert(crypt_seed(1861) == 264488); assert(crypt_seed(1862) == 2302770); assert(crypt_seed(1863) == 2633547); assert(crypt_seed(1864) == 2037627);
    assert(crypt_seed(1865) == 248905); assert(crypt_seed(1866) == 354895); assert(crypt_seed(1867) == 2418833); assert(crypt_seed(1868) == 364204);
    assert(crypt_seed(1869) == 786255); assert(crypt_seed(1870) == 414773); assert(crypt_seed(1871) == 1514974); assert(crypt_seed(1872) == 2026152);
    assert(crypt_seed(1873) == 1610733); assert(crypt_seed(1874) == 15012); assert(crypt_seed(1875) == 1876503); assert(crypt_seed(1876) == 2478029);
    assert(crypt_seed(1877) == 2171298); assert(crypt_seed(1878) == 180562); assert(crypt_seed(1879) == 200629); assert(crypt_seed(1880) == 2709004);
    assert(crypt_seed(1881) == 284940); assert(crypt_seed(1882) == 2063067); assert(crypt_seed(1883) == 632702); assert(crypt_seed(1884) == 794069);
    assert(crypt_seed(1885) == 1391523); assert(crypt_seed(1886) == 575792); assert(crypt_seed(1887) == 2068928); assert(crypt_seed(1888) == 1365327);
    assert(crypt_seed(1889) == 97495); assert(crypt_seed(1890) == 1002066); assert(crypt_seed(1891) == 2225321); assert(crypt_seed(1892) == 1341031);
    assert(crypt_seed(1893) == 2652901); assert(crypt_seed(1894) == 1660674); assert(crypt_seed(1895) == 665231); assert(crypt_seed(1896) == 2063991);
    assert(crypt_seed(1897) == 748202); assert(crypt_seed(1898) == 1250554); assert(crypt_seed(1899) == 2528088); assert(crypt_seed(1900) == 40064);
    assert(crypt_seed(1901) == 2211800); assert(crypt_seed(1902) == 2447109); assert(crypt_seed(1903) == 1102501); assert(crypt_seed(1904) == 798681);
    assert(crypt_seed(1905) == 1968023); assert(crypt_seed(1906) == 2733217); assert(crypt_seed(1907) == 515362); assert(crypt_seed(1908) == 107584);
    assert(crypt_seed(1909) == 2263191); assert(crypt_seed(1910) == 482375); assert(crypt_seed(1911) == 1576615); assert(crypt_seed(1912) == 1342668);
    assert(crypt_seed(1913) == 61323); assert(crypt_seed(1914) == 2072972); assert(crypt_seed(1915) == 1870827); assert(crypt_seed(1916) == 1768529);
    assert(crypt_seed(1917) == 166091); assert(crypt_seed(1918) == 1187957); assert(crypt_seed(1919) == 295869); assert(crypt_seed(1920) == 632989);
    assert(crypt_seed(1921) == 829944); assert(crypt_seed(1922) == 283492); assert(crypt_seed(1923) == 1882067); assert(crypt_seed(1924) == 377326);
    assert(crypt_seed(1925) == 2426505); assert(crypt_seed(1926) == 1323204); assert(crypt_seed(1927) == 424526); assert(crypt_seed(1928) == 2734099);
    assert(crypt_seed(1929) == 625612); assert(crypt_seed(1930) == 2704022); assert(crypt_seed(1931) == 2458393); assert(crypt_seed(1932) == 2513001);
    assert(crypt_seed(1933) == 950392); assert(crypt_seed(1934) == 1358477); assert(crypt_seed(1935) == 2037448); assert(crypt_seed(1936) == 226530);
    assert(crypt_seed(1937) == 354223); assert(crypt_seed(1938) == 2334833); assert(crypt_seed(1939) == 1049016); assert(crypt_seed(1940) == 2501665);
    assert(crypt_seed(1941) == 2329595); assert(crypt_seed(1942) == 394266); assert(crypt_seed(1943) == 1747802); assert(crypt_seed(1944) == 371419);
    assert(crypt_seed(1945) == 1688130); assert(crypt_seed(1946) == 1301028); assert(crypt_seed(1947) == 448729); assert(crypt_seed(1948) == 167068);
    assert(crypt_seed(1949) == 1310082); assert(crypt_seed(1950) == 1580479); assert(crypt_seed(1951) == 1825668); assert(crypt_seed(1952) == 1716060);
    assert(crypt_seed(1953) == 1996075); assert(crypt_seed(1954) == 647311); assert(crypt_seed(1955) == 2620194); assert(crypt_seed(1956) == 368502);
    assert(crypt_seed(1957) == 1323505); assert(crypt_seed(1958) == 462151); assert(crypt_seed(1959) == 1844818); assert(crypt_seed(1960) == 1313607);
    assert(crypt_seed(1961) == 2021104); assert(crypt_seed(1962) == 979733); assert(crypt_seed(1963) == 2229899); assert(crypt_seed(1964) == 1913281);
    assert(crypt_seed(1965) == 1482873); assert(crypt_seed(1966) == 809730); assert(crypt_seed(1967) == 552945); assert(crypt_seed(1968) == 2009256);
    assert(crypt_seed(1969) == 2294936); assert(crypt_seed(1970) == 1654297); assert(crypt_seed(1971) == 2664309); assert(crypt_seed(1972) == 290471);
    assert(crypt_seed(1973) == 2754442); assert(crypt_seed(1974) == 372284); assert(crypt_seed(1975) == 1796255); assert(crypt_seed(1976) == 835638);
    assert(crypt_seed(1977) == 995242); assert(crypt_seed(1978) == 1372321); assert(crypt_seed(1979) == 971745); assert(crypt_seed(1980) == 1231399);
    assert(crypt_seed(1981) == 133713); assert(crypt_seed(1982) == 2733113); assert(crypt_seed(1983) == 502362); assert(crypt_seed(1984) == 1278787);
    assert(crypt_seed(1985) == 464807); assert(crypt_seed(1986) == 2176818); assert(crypt_seed(1987) == 870562); assert(crypt_seed(1988) == 2564539);
    assert(crypt_seed(1989) == 1800236); assert(crypt_seed(1990) == 1333263); assert(crypt_seed(1991) == 1681901); assert(crypt_seed(1992) == 522403);
    assert(crypt_seed(1993) == 987709); assert(crypt_seed(1994) == 430696); assert(crypt_seed(1995) == 709146); assert(crypt_seed(1996) == 1960960);
    assert(crypt_seed(1997) == 1850342); assert(crypt_seed(1998) == 2004107); assert(crypt_seed(1999) == 1651311); assert(crypt_seed(2000) == 2291059);
    assert(crypt_seed(2001) == 1169672); assert(crypt_seed(2002) == 806447); assert(crypt_seed(2003) == 142570); assert(crypt_seed(2004) == 1044035);
    assert(crypt_seed(2005) == 1879040); assert(crypt_seed(2006) == 2795154); assert(crypt_seed(2007) == 2665081); assert(crypt_seed(2008) == 386971);
    assert(crypt_seed(2009) == 835927); assert(crypt_seed(2010) == 1031367); assert(crypt_seed(2011) == 295540); assert(crypt_seed(2012) == 591864);
    assert(crypt_seed(2013) == 1281725); assert(crypt_seed(2014) == 832057); assert(crypt_seed(2015) == 547617); assert(crypt_seed(2016) == 1343256);
    assert(crypt_seed(2017) == 134823); assert(crypt_seed(2018) == 75660); assert(crypt_seed(2019) == 1068894); assert(crypt_seed(2020) == 2190212);
    assert(crypt_seed(2021) == 2544812); assert(crypt_seed(2022) == 2130564); assert(crypt_seed(2023) == 681218); assert(crypt_seed(2024) == 1266163);
    assert(crypt_seed(2025) == 1683010); assert(crypt_seed(2026) == 661028); assert(crypt_seed(2027) == 1538616); assert(crypt_seed(2028) == 2185199);
    assert(crypt_seed(2029) == 1918187); assert(crypt_seed(2030) == 2096123); assert(crypt_seed(2031) == 1968499); assert(crypt_seed(2032) == 2792717);
    assert(crypt_seed(2033) == 2360456); assert(crypt_seed(2034) == 1455688); assert(crypt_seed(2035) == 207808); assert(crypt_seed(2036) == 810176);
    assert(crypt_seed(2037) == 608695); assert(crypt_seed(2038) == 589397); assert(crypt_seed(2039) == 973350); assert(crypt_seed(2040) == 1432024);
    assert(crypt_seed(2041) == 46011); assert(crypt_seed(2042) == 158972); assert(crypt_seed(2043) == 298082); assert(crypt_seed(2044) == 909614);
    assert(crypt_seed(2045) == 1853633); assert(crypt_seed(2046) == 2415482); assert(crypt_seed(2047) == 2741532); assert(crypt_seed(2048) == 1554737);
}

/// The crypt-table generator's seeds up to step 2304, one step at a time.
proof fn lemma_generator_8()
    ensures
        crypt_seed(2304) == 2079784,
{
    lemma_generator_7();
    assert(crypt_seed(2049) == 1404121); assert(crypt_seed(2050) == 2150542); assert(crypt_seed(2051) == 382265); assert(crypt_seed(2052) == 247677);
    assert(crypt_seed(2053) == 201395); assert(crypt_seed(2054) == 8551); assert(crypt_seed(2055) == 1068878); assert(crypt_seed(2056) == 2188212);
    assert(crypt_seed(2057) == 2294812); assert(crypt_seed(2058) == 1638797); assert(crypt_seed(2059) == 726809); assert(crypt_seed(2060) == 1372632);
    assert(crypt_seed(2061) == 1010620); assert(crypt_seed(2062) == 498368); assert(crypt_seed(2063) == 779537); assert(crypt_seed(2064) == 2371226);
    assert(crypt_seed(2065) == 5735); assert(crypt_seed(2066) == 716878); assert(crypt_seed(2067) == 131257); assert(crypt_seed(2068) == 2426113);
    assert(crypt_seed(2069) == 1274204); assert(crypt_seed(2070) == 2688135); assert(crypt_seed(2071) == 472518); assert(crypt_seed(2072) == 344490);
    assert(crypt_seed(2073) == 1118208); assert(crypt_seed(2074) == 2762056); assert(crypt_seed(2075) == 1324034); assert(crypt_seed(2076) == 528276);
    assert(crypt_seed(2077) == 1721834); assert(crypt_seed(2078) == 2717825); assert(crypt_seed(2079) == 1387565); assert(crypt_seed(2080) == 81042);
    assert(crypt_seed(2081) == 1741644); assert(crypt_seed(2082) == 2397872); assert(crypt_seed(2083) == 540282); assert(crypt_seed(2084) == 426381);
    assert(crypt_seed(2085) == 169771); assert(crypt_seed(2086) == 1647957); assert(crypt_seed(2087) == 1871809); assert(crypt_seed(2088) == 1891279);
    assert(crypt_seed(2089) == 1528826); assert(crypt_seed(2090) == 961449); assert(crypt_seed(2091) == 2740602); assert(crypt_seed(2092) == 1438487);
    assert(crypt_seed(2093) == 853886); assert(crypt_seed(2094) == 480039); assert(crypt_seed(2095) == 1284615); assert(crypt_seed(2096) == 1193307);
    assert(crypt_seed(2097) == 964619); assert(crypt_seed(2098) == 340649); assert(crypt_seed(2099) == 638083); assert(crypt_seed(2100) == 1466694);
    assert(crypt_seed(2101) == 1583558); assert(crypt_seed(2102) == 2210543); assert(crypt_seed(2103) == 2289984); assert(crypt_seed(2104) == 1035297);
    assert(crypt_seed(2105) == 786790); assert(crypt_seed(2106) == 481648); assert(crypt_seed(2107) == 1485740); assert(crypt_seed(2108) == 1168105);
    assert(crypt_seed(2109) == 610572); assert(crypt_seed(2110) == 824022); assert(crypt_seed(2111) == 2339445); assert(crypt_seed(2112) == 1625516);
    assert(crypt_seed(2113) == 1862887); assert(crypt_seed(2114) == 776029); assert(crypt_seed(2115) == 1932726); assert(crypt_seed(2116) == 1117295);
    assert(crypt_seed(2117) == 2647931); assert(crypt_seed(2118) == 1039424); assert(crypt_seed(2119) == 1302665); assert(crypt_seed(2120) == 653354);
    assert(crypt_seed(2121) == 579366); assert(crypt_seed(2122) == 2515678); assert(crypt_seed(2123) == 1285017); assert(crypt_seed(2124) == 1243557);
    assert(crypt_seed(2125) == 1653463); assert(crypt_seed(2126) == 2560059); assert(crypt_seed(2127) == 1240236); assert(crypt_seed(2128) == 1238338);
    assert(crypt_seed(2129) == 1001088); assert(crypt_seed(2130) == 2103071); assert(crypt_seed(2131) == 40796); assert(crypt_seed(2132) == 2303300);
    assert(crypt_seed(2133) == 2699797); assert(crypt_seed(2134) == 1930268); assert(crypt_seed(2135) == 810045); assert(crypt_seed(2136) == 592320);
    assert(crypt_seed(2137) == 1338725); assert(crypt_seed(2138) == 2364651); assert(crypt_seed(2139) == 1980063); assert(crypt_seed(2140) == 1442014);
    assert(crypt_seed(2141) == 1294761); assert(crypt_seed(2142) == 2461557); assert(crypt_seed(2143) == 112298); assert(crypt_seed(2144) == 56238);
    assert(crypt_seed(2145) == 1437347); assert(crypt_seed(2146) == 711386); assert(crypt_seed(2147) == 2240960); assert(crypt_seed(2148) == 499703);
    assert(crypt_seed(2149) == 946412); assert(crypt_seed(2150) == 860977); assert(crypt_seed(2151) == 1366414); assert(crypt_seed(2152) == 233370);
    assert(crypt_seed(2153) == 1209223); assert(crypt_seed(2154) == 157916); assert(crypt_seed(2155) == 166082); assert(crypt_seed(2156) == 1186832);
    assert(crypt_seed(2157) == 155244); assert(crypt_seed(2158) == 2628285); assert(crypt_seed(2159) == 1379877); assert(crypt_seed(2160) == 1916245);
    assert(crypt_seed(2161) == 1853373); assert(crypt_seed(2162) == 2382982); assert(crypt_seed(2163) == 1475235); assert(crypt_seed(2164) == 2651183);
    assert(crypt_seed(2165) == 1445924); assert(crypt_seed(2166) == 1783511); assert(crypt_seed(2167) == 2038841); assert(crypt_seed(2168) == 400655);
    assert(crypt_seed(2169) == 2546427); assert(crypt_seed(2170) == 2332439); assert(crypt_seed(2171) == 749766); assert(crypt_seed(2172) == 1446054);
    assert(crypt_seed(2173) == 1799761); assert(crypt_seed(2174) == 1273888); assert(crypt_seed(2175) == 2648635); assert(crypt_seed(2176) == 1127424);
    assert(crypt_seed(2177) == 1117853); assert(crypt_seed(2178) == 2717681); assert(crypt_seed(2179) == 1369565); assert(crypt_seed(2180) == 627245);
    assert(crypt_seed(2181) == 111944); assert(crypt_seed(2182) == 11988); assert(crypt_seed(2183) == 1498503); assert(crypt_seed(2184) == 2763480);
    assert(crypt_seed(2185) == 1502034); assert(crypt_seed(2186) == 408652); assert(crypt_seed(2187) == 749849); assert(crypt_seed(2188) == 1456429);
    assert(crypt_seed(2189) == 300433); assert(crypt_seed(2190) == 1203489); assert(crypt_seed(2191) == 2237369); assert(crypt_seed(2192) == 50828);
    assert(crypt_seed(2193) == 761097); assert(crypt_seed(2194) == 66226); assert(crypt_seed(2195) == 2685847); assert(crypt_seed(2196) == 186518);
    assert(crypt_seed(2197) == 945129); assert(crypt_seed(2198) == 700602); assert(crypt_seed(2199) == 892960); assert(crypt_seed(2200) == 2568086);
    assert(crypt_seed(2201) == 2243611); assert(crypt_seed(2202) == 831078); assert(crypt_seed(2203) == 425242); assert(crypt_seed(2204) == 27396);
    assert(crypt_seed(2205) == 628300); assert(crypt_seed(2206) == 243819); assert(crypt_seed(2207) == 2515348); assert(crypt_seed(2208) == 1243767);
    assert(crypt_seed(2209) == 1679713); assert(crypt_seed(2210) == 248903); assert(crypt_seed(2211) == 354645); assert(crypt_seed(2212) == 2387583);
    assert(crypt_seed(2213) == 2050360); assert(crypt_seed(2214) == 1840530); assert(crypt_seed(2215) == 777607); assert(crypt_seed(2216) == 2129976);
    assert(crypt_seed(2217) == 607718); assert(crypt_seed(2218) == 467272); assert(crypt_seed(2219) == 2484943); assert(crypt_seed(2220) == 239345);
    assert(crypt_seed(2221) == 1956098); assert(crypt_seed(2222) == 1242592); assert(crypt_seed(2223) == 1532838); assert(crypt_seed(2224) == 1462949);
    assert(crypt_seed(2225) == 1115433); assert(crypt_seed(2226) == 2415181); assert(crypt_seed(2227) == 2703907); assert(crypt_seed(2228) == 2444018);
    assert(crypt_seed(2229) == 716126); assert(crypt_seed(2230) == 37257); assert(crypt_seed(2231) == 1860925); assert(crypt_seed(2232) == 530779);
    assert(crypt_seed(2233) == 2034709); assert(crypt_seed(2234) == 2680358); assert(crypt_seed(2235) == 2296596); assert(crypt_seed(2236) == 1861797);
    assert(crypt_seed(2237) == 639779); assert(crypt_seed(2238) == 1678694); assert(crypt_seed(2239) == 121528); assert(crypt_seed(2240) == 1209988);
    assert(crypt_seed(2241) == 253541); assert(crypt_seed(2242) == 934395); assert(crypt_seed(2243) == 2155055); assert(crypt_seed(2244) == 946390);
    assert(crypt_seed(2245) == 858227); assert(crypt_seed(2246) == 1022664); assert(crypt_seed(2247) == 2003868); assert(crypt_seed(2248) == 1621436);
    assert(crypt_seed(2249) == 1352887); assert(crypt_seed(2250) == 1338698); assert(crypt_seed(2251) == 2361276); assert(crypt_seed(2252) == 1558188);
    assert(crypt_seed(2253) == 1835496); assert(crypt_seed(2254) == 148357); assert(crypt_seed(2255) == 1767410); assert(crypt_seed(2256) == 26216);
    assert(crypt_seed(2257) == 480800); assert(crypt_seed(2258) == 1379740); assert(crypt_seed(2259) == 1899120); assert(crypt_seed(2260) == 2508951);
    assert(crypt_seed(2261) == 444142); assert(crypt_seed(2262) == 2389896); assert(crypt_seed(2263) == 2339485); assert(crypt_seed(2264) == 1630516);
    assert(crypt_seed(2265) == 2487887); assert(crypt_seed(2266) == 607345); assert(crypt_seed(2267) == 420647); assert(crypt_seed(2268) == 2249224);
    assert(crypt_seed(2269) == 1532703); assert(crypt_seed(2270) == 1446074); assert(crypt_seed(2271) == 1802261); assert(crypt_seed(2272) == 1586388);
    assert(crypt_seed(2273) == 2564293); assert(crypt_seed(2274) == 1769486); assert(crypt_seed(2275) == 285716); assert(crypt_seed(2276) == 2160067);
    assert(crypt_seed(2277) == 1572890); assert(crypt_seed(2278) == 877043); assert(crypt_seed(2279) == 578461); assert(crypt_seed(2280) == 2402553);
    assert(crypt_seed(2281) == 1125407); assert(crypt_seed(2282) == 865728); assert(crypt_seed(2283) == 1960289); assert(crypt_seed(2284) == 1766467);
    assert(crypt_seed(2285) == 2704544); assert(crypt_seed(2286) == 2523643); assert(crypt_seed(2287) == 2280642); assert(crypt_seed(2288) == 2663750);
    assert(crypt_seed(2289) == 220596); assert(crypt_seed(2290) == 2408676); assert(crypt_seed(2291) == 1890782); assert(crypt_seed(2292) == 1466701);
    assert(crypt_seed(2293) == 1584433); assert(crypt_seed(2294) == 2319918); assert(crypt_seed(2295) == 1980844); assert(crypt_seed(2296) == 1539639);
    assert(crypt_seed(2297) == 2313074); assert(crypt_seed(2298) == 1125344); assert(crypt_seed(2299) == 857853); assert(crypt_seed(2300) == 975914);
    assert(crypt_seed(2301) == 1752524); assert(crypt_seed(2302) == 961669); assert(crypt_seed(2303) == 2768102); assert(crypt_seed(2304) == 2079784);
}

/// The crypt-table generator's seeds up to step 2480, one step at a time.
proof fn lemma_generator_9()
    ensures
        crypt_seed(2480) == 1248514,
        crypt_seed(2479) == 1978515,
{
    lemma_generator_8();
    assert(crypt_seed(2305) == 2722327); assert(crypt_seed(2306) == 1950315); assert(crypt_seed(2307) == 519717); assert(crypt_seed(2308) == 651959);
    assert(crypt_seed(2309) == 404991); assert(crypt_seed(2310) == 292224); assert(crypt_seed(2311) == 177364); assert(crypt_seed(2312) == 2597082);
    assert(crypt_seed(2313) == 275705); assert(crypt_seed(2314) == 908692); assert(crypt_seed(2315) == 1738383); assert(crypt_seed(2316) == 1990247);
    assert(crypt_seed(2317) == 2715014); assert(crypt_seed(2318) == 1036190); assert(crypt_seed(2319) == 898415); assert(crypt_seed(2320) == 453758);
    assert(crypt_seed(2321) == 795693); assert(crypt_seed(2322) == 1594523); assert(crypt_seed(2323) == 784965); assert(crypt_seed(2324) == 253523);
    assert(crypt_seed(2325) == 932145); assert(crypt_seed(2326) == 1873805); assert(crypt_seed(2327) == 2140779); assert(crypt_seed(2328) == 1958093);
    assert(crypt_seed(2329) == 1491967); assert(crypt_seed(2330) == 1946480); assert(crypt_seed(2331) == 40342); assert(crypt_seed(2332) == 2246550);
    assert(crypt_seed(2333) == 1198453); assert(crypt_seed(2334) == 1607869); assert(crypt_seed(2335) == 2453215); assert(crypt_seed(2336) == 1865751);
    assert(crypt_seed(2337) == 1134029); assert(crypt_seed(2338) == 1943478); assert(crypt_seed(2339) == 2461295); assert(crypt_seed(2340) == 79548);
    assert(crypt_seed(2341) == 1554894); assert(crypt_seed(2342) == 1423746); assert(crypt_seed(2343) == 1807464); assert(crypt_seed(2344) == 2236763);
    assert(crypt_seed(2345) == 2771281); assert(crypt_seed(2346) == 2477159); assert(crypt_seed(2347) == 2062548); assert(crypt_seed(2348) == 567827);
    assert(crypt_seed(2349) == 1073303); assert(crypt_seed(2350) == 2741337); assert(crypt_seed(2351) == 1530362); assert(crypt_seed(2352) == 1153449);
    assert(crypt_seed(2353) == 1574775); assert(crypt_seed(2354) == 1112668); assert(crypt_seed(2355) == 2069556); assert(crypt_seed(2356) == 1443827);
    assert(crypt_seed(2357) == 1521386); assert(crypt_seed(2358) == 31449); assert(crypt_seed(2359) == 1134925); assert(crypt_seed(2360) == 2055478);
    assert(crypt_seed(2361) == 2480280); assert(crypt_seed(2362) == 2452673); assert(crypt_seed(2363) == 1798001); assert(crypt_seed(2364) == 1053888);
    assert(crypt_seed(2365) == 314462); assert(crypt_seed(2366) == 160911); assert(crypt_seed(2367) == 540457); assert(crypt_seed(2368) == 448256);
    assert(crypt_seed(2369) == 107943); assert(crypt_seed(2370) == 2308066); assert(crypt_seed(2371) == 499344); assert(crypt_seed(2372) == 901537);
    assert(crypt_seed(2373) == 844008); assert(crypt_seed(2374) == 2041492); assert(crypt_seed(2375) == 732030); assert(crypt_seed(2376) == 2025257);
    assert(crypt_seed(2377) == 1498858); assert(crypt_seed(2378) == 11652); assert(crypt_seed(2379) == 1456503); assert(crypt_seed(2380) == 309683);
    assert(crypt_seed(2381) == 2359739); assert(crypt_seed(2382) == 1366063); assert(crypt_seed(2383) == 189495); assert(crypt_seed(2384) == 1317254);
    assert(crypt_seed(2385) == 2476979); assert(crypt_seed(2386) == 2040048); assert(crypt_seed(2387) == 551530); assert(crypt_seed(2388) == 1832381);
    assert(crypt_seed(2389) == 2555185); assert(crypt_seed(2390) == 630986); assert(crypt_seed(2391) == 579569); assert(crypt_seed(2392) == 2541053);
    assert(crypt_seed(2393) == 1660689); assert(crypt_seed(2394) == 667106); assert(crypt_seed(2395) == 2298366); assert(crypt_seed(2396) == 2083047);
    assert(crypt_seed(2397) == 333999); assert(crypt_seed(2398) == 2603036); assert(crypt_seed(2399) == 1019955); assert(crypt_seed(2400) == 1665243);
    assert(crypt_seed(2401) == 1236356); assert(crypt_seed(2402) == 753338); assert(crypt_seed(2403) == 1892554); assert(crypt_seed(2404) == 1688201);
    assert(crypt_seed(2405) == 1309903); assert(crypt_seed(2406) == 1558104); assert(crypt_seed(2407) == 1824996); assert(crypt_seed(2408) == 1632060);
    assert(crypt_seed(2409) == 2680887); assert(crypt_seed(2410) == 2362721); assert(crypt_seed(2411) == 1738813); assert(crypt_seed(2412) == 2043997);
    assert(crypt_seed(2413) == 1045155); assert(crypt_seed(2414) == 2019040); assert(crypt_seed(2415) == 721733); assert(crypt_seed(2416) == 738132);
    assert(crypt_seed(2417) == 2788007); assert(crypt_seed(2418) == 1771706); assert(crypt_seed(2419) == 563216); assert(crypt_seed(2420) == 496928);
    assert(crypt_seed(2421) == 599537); assert(crypt_seed(2422) == 2240850); assert(crypt_seed(2423) == 485953); assert(crypt_seed(2424) == 2023865);
    assert(crypt_seed(2425) == 1324858); assert(crypt_seed(2426) == 631276); assert(crypt_seed(2427) == 615819); assert(crypt_seed(2428) == 1479897);
    assert(crypt_seed(2429) == 437730); assert(crypt_seed(2430) == 1588396); assert(crypt_seed(2431) == 19090); assert(crypt_seed(2432) == 2386253);
    assert(crypt_seed(2433) == 1884110); assert(crypt_seed(2434) == 632701); assert(crypt_seed(2435) == 793944); assert(crypt_seed(2436) == 1375898);
    assert(crypt_seed(2437) == 1418870); assert(crypt_seed(2438) == 1197964); assert(crypt_seed(2439) == 1546744); assert(crypt_seed(2440) == 404996);
    assert(crypt_seed(2441) == 292849); assert(crypt_seed(2442) == 255489); assert(crypt_seed(2443) == 1177895); assert(crypt_seed(2444) == 1834322);
    assert(crypt_seed(2445) == 1607); assert(crypt_seed(2446) == 200878); assert(crypt_seed(2447) == 2740129); assert(crypt_seed(2448) == 1379362);
    assert(crypt_seed(2449) == 1851870); assert(crypt_seed(2450) == 2195107); assert(crypt_seed(2451) == 360484); assert(crypt_seed(2452) == 321255);
    assert(crypt_seed(2453) == 1010036); assert(crypt_seed(2454) == 425368); assert(crypt_seed(2455) == 43146); assert(crypt_seed(2456) == 2597050);
    assert(crypt_seed(2457) == 271705); assert(crypt_seed(2458) == 408692); assert(crypt_seed(2459) == 754849); assert(crypt_seed(2460) == 2081429);
    assert(crypt_seed(2461) == 131749); assert(crypt_seed(2462) == 2487613); assert(crypt_seed(2463) == 573095); assert(crypt_seed(2464) == 1731803);
    assert(crypt_seed(2465) == 1167747); assert(crypt_seed(2466) == 565822); assert(crypt_seed(2467) == 822678); assert(crypt_seed(2468) == 2171445);
    assert(crypt_seed(2469) == 198937); assert(crypt_seed(2470) == 2497504); assert(crypt_seed(2471) == 1809470); assert(crypt_seed(2472) == 2487513);
    assert(crypt_seed(2473) == 560595); assert(crypt_seed(2474) == 169303); assert(crypt_seed(2475) == 1589457); assert(crypt_seed(2476) == 151715);
    assert(crypt_seed(2477) == 2187160); assert(crypt_seed(2478) == 2163312); assert(crypt_seed(2479) == 1978515); assert(crypt_seed(2480) == 1248514);
}

/// The crypt-table words that the reference hashes and ciphertext use.
proof fn lemma_table_words()
    ensures
        crypt_entry(0) == 0x55C636E2u32,
        crypt_entry(1) == 0x02BE0170u32,
        crypt_entry(40) == 0xCA5CCEDAu32,
        crypt_entry(41) == 0xB732C8B5u32,
        crypt_entry(69) == 0x791B7764u32,
        crypt_entry(70) == 0x386B36D6u32,
        crypt_entry(73) == 0x4ABC7DC7u32,
        crypt_entry(76) == 0x60B88F07u32,
        crypt_entry(83) == 0xE76CFFA5u32,
        crypt_entry(84) == 0x624FAB29u32,
        crypt_entry(256) == 0x76F8C1B1u32,
        crypt_entry(296) == 0xAAFD2811u32,
        crypt_entry(297) == 0x55B22D21u32,
        crypt_entry(325) == 0xA1094BF0u32,
        crypt_entry(326) == 0xC680EC6Cu32,
        crypt_entry(329) == 0x6A227D2Fu32,
        crypt_entry(332) == 0x2BBD05EEu32,
        crypt_entry(339) == 0xD3723E97u32,
        crypt_entry(340) == 0x92F66CAFu32,
        crypt_entry(512) == 0x3DF6965Du32,
        crypt_entry(552) == 0x3AEF1BF2u32,
        crypt_entry(553) == 0x5E5D68A2u32,
        crypt_entry(581) == 0xBECE2A7Au32,
        crypt_entry(582) == 0x70A4554Bu32,
        crypt_entry(585) == 0x1FE391D6u32,
        crypt_entry(588) == 0xE5153086u32,
        crypt_entry(595) == 0xE4EF735Cu32,
        crypt_entry(596) == 0xBC062438u32,
        crypt_entry(800) == 0xC25F92EFu32,
        crypt_entry(808) == 0xA50A406Fu32,
        crypt_entry(809) == 0x6C508D9Fu32,
        crypt_entry(833) == 0x8CB50992u32,
        crypt_entry(834) == 0x9B58D9EEu32,
        crypt_entry(835) == 0xE5AB79CCu32,
        crypt_entry(837) == 0xBD9591B0u32,
        crypt_entry(840) == 0x0286E618u32,
        crypt_entry(843) == 0x754C4617u32,
        crypt_entry(844) == 0x5C10490Bu32,
        crypt_entry(847) == 0x5775095Bu32,
        crypt_entry(851) == 0x53E19F7Du32,
        crypt_entry(852) == 0x59FF46B5u32,
        crypt_entry(1024) == 0x193AA698u32,
        crypt_entry(1087) == 0x2F316022u32,
        crypt_entry(1136) == 0xD39EA96Eu32,
        crypt_entry(1211) == 0x0FB5560Cu32,
        crypt_entry(1271) == 0x30930D02u32,
{
    reveal(crypt_entry);
    lemma_generator_0();
    lemma_generator_1();
    lemma_generator_2();
    lemma_generator_3();
    lemma_generator_4();
    lemma_generator_5();
    lemma_generator_6();
    lemma_generator_7();
    lemma_generator_8();
    lemma_generator_9();
    assert(crypt_entry(0) == 0x55C636E2u32);
    assert(crypt_entry(1) == 0x02BE0170u32);
    assert(crypt_entry(40) == 0xCA5CCEDAu32);
    assert(crypt_entry(41) == 0xB732C8B5u32);
    assert(crypt_entry(69) == 0x791B7764u32);
    assert(crypt_entry(70) == 0x386B36D6u32);
    assert(crypt_entry(73) == 0x4ABC7DC7u32);
    assert(crypt_entry(76) == 0x60B88F07u32);
    assert(crypt_entry(83) == 0xE76CFFA5u32);
    assert(crypt_entry(84) == 0x624FAB29u32);
    assert(crypt_entry(256) == 0x76F8C1B1u32);
    assert(crypt_entry(296) == 0xAAFD2811u32);
    assert(crypt_entry(297) == 0x55B22D21u32);
    assert(crypt_entry(325) == 0xA1094BF0u32);
    assert(crypt_entry(326) == 0xC680EC6Cu32);
    assert(crypt_entry(329) == 0x6A227D2Fu32);
    assert(crypt_entry(332) == 0x2BBD05EEu32);
    assert(crypt_entry(339) == 0xD3723E97u32);
    assert(crypt_entry(340) == 0x92F66CAFu32);
    assert(crypt_entry(512) == 0x3DF6965Du32);
    assert(crypt_entry(552) == 0x3AEF1BF2u32);
    assert(crypt_entry(553) == 0x5E5D68A2u32);
    assert(crypt_entry(581) == 0xBECE2A7Au32);
    assert(crypt_entry(582) == 0x70A4554Bu32);
    assert(crypt_entry(585) == 0x1FE391D6u32);
    assert(crypt_entry(588) == 0xE5153086u32);
    assert(crypt_entry(595) == 0xE4EF735Cu32);
    assert(crypt_entry(596) == 0xBC062438u32);
    assert(crypt_entry(800) == 0xC25F92EFu32);
    assert(crypt_entry(808) == 0xA50A406Fu32);
    assert(crypt_entry(809) == 0x6C508D9Fu32);
    assert(crypt_entry(833) == 0x8CB50992u32);
    assert(crypt_entry(834) == 0x9B58D9EEu32);
    assert(crypt_entry(835) == 0xE5AB79CCu32);
    assert(crypt_entry(837) == 0xBD9591B0u32);
    assert(crypt_entry(840) == 0x0286E618u32);
    assert(crypt_entry(843) == 0x754C4617u32);
    assert(crypt_entry(844) == 0x5C10490Bu32);
    assert(crypt_entry(847) == 0x5775095Bu32);
    assert(crypt_entry(851) == 0x53E19F7Du32);
    assert(crypt_entry(852) == 0x59FF46B5u32);
    assert(crypt_entry(1024) == 0x193AA698u32);
    assert(crypt_entry(1087) == 0x2F316022u32);
    assert(crypt_entry(1136) == 0xD39EA96Eu32);
    assert(crypt_entry(1211) == 0x0FB5560Cu32);
    assert(crypt_entry(1271) == 0x30930D02u32);
}

/// The Storm crypt table starts as every MPQ reader's does: its first
/// two words, and the first word of the second, third and fifth blocks.
pub proof fn law_crypt_table_reference()
    ensures
        crypt_entry(0) == 0x55C636E2u32,
        crypt_entry(1) == 0x02BE0170u32,
        crypt_entry(256) == 0x76F8C1B1u32,
        crypt_entry(512) == 0x3DF6965Du32,
        crypt_entry(1024) == 0x193AA698u32,
{
    lemma_table_words();
}

/// The block-0 words that the characters of `(listfile)` pick.
proof fn lemma_hash_vector_0_words()
    ensures
        crypt_entry(40) == 0xCA5CCEDAu32,
        crypt_entry(41) == 0xB732C8B5u32,
        crypt_entry(69) == 0x791B7764u32,
        crypt_entry(70) == 0x386B36D6u32,
        crypt_entry(73) == 0x4ABC7DC7u32,
        crypt_entry(76) == 0x60B88F07u32,
        crypt_entry(83) == 0xE76CFFA5u32,
        crypt_entry(84) == 0x624FAB29u32,
{
    lemma_table_words();
}

/// The Storm hash of `(listfile)` under type 0, one character at a time.
proof fn lemma_hash_vector_0()
    ensures
        storm_hash("(listfile)"@, 0) == 0x5F3DE859u32,
{
    lemma_hash_vector_0_words();
    assert(0xCA5CCEDAu32 ^ 0x6EDC6EDBu32 == 0xA480A001u32 && 0xEEEEEEEEu32 << 5u32 == 0xDDDDDDC0u32 && 0x60B88F07u32 ^ 0x15CE0CDBu32 == 0x757683DCu32 && 0x714D6CDAu32 << 5u32 == 0x29AD9B40u32 && 0x4ABC7DC7u32 ^ 0x85E81021u32 == 0xCF546DE6u32 && 0x10718C45u32 << 5u32 == 0x0E3188A0u32 && 0xE76CFFA5u32 ^ 0xBD4BF0FDu32 == 0x5A270F58u32 && 0xEDF78317u32 << 5u32 == 0xBEF062E0u32 && 0x624FAB29u32 ^ 0x613604FDu32 == 0x0379AFD4u32 && 0x070EF5A5u32 << 5u32 == 0xE1DEB4A0u32 && 0x386B36D6u32 ^ 0xEFE10A44u32 == 0xD78A3C92u32 && 0xEC675A70u32 << 5u32 == 0x8CEB4E00u32 && 0x4ABC7DC7u32 ^ 0x286721DDu32 == 0x62DB5C1Au32 && 0x50DCE54Bu32 << 5u32 == 0x1B9CA960u32 && 0x60B88F07u32 ^ 0x3230472Bu32 == 0x5288C82Cu32 && 0xCF54EB11u32 << 5u32 == 0xEA9D6220u32 && 0x791B7764u32 ^ 0x5F03DDD8u32 == 0x2618AABCu32 && 0x0C7B15ACu32 << 5u32 == 0x8F62B580u32 && 0xB732C8B5u32 ^ 0xE80F20ECu32 == 0x5F3DE859u32 && 0xC1F67630u32 << 5u32 == 0x3ECEC600u32) by (bit_vector);
    reveal_strlit("(listfile)");
    let p0 = Seq::<char>::empty();
    assert(hash_state(p0, 0) == (0x7FED7FEDu32, 0xEEEEEEEEu32));
    let p1 = p0.push('(');
    assert(p1.drop_last() =~= p0 && p1.last() == '(');
    assert(hash_byte('(') == 40);
    assert(hash_state(p1, 0) == (0xA480A001u32, 0x714D6CDAu32));
    let p2 = p1.push('l');
    assert(p2.drop_last() =~= p1 && p2.last() == 'l');
    assert(hash_byte('l') == 76);
    assert(hash_state(p2, 0) == (0x757683DCu32, 0x10718C45u32));
    let p3 = p2.push('i');
    assert(p3.drop_last() =~= p2 && p3.last() == 'i');
    assert(hash_byte('i') == 73);
    assert(hash_state(p3, 0) == (0xCF546DE6u32, 0xEDF78317u32));
    let p4 = p3.push('s');
    assert(p4.drop_last() =~= p3 && p4.last() == 's');
    assert(hash_byte('s') == 83);
    assert(hash_state(p4, 0) == (0x5A270F58u32, 0x070EF5A5u32));
    let p5 = p4.push('t');
    assert(p5.drop_last() =~= p4 && p5.last() == 't');
    assert(hash_byte('t') == 84);
    assert(hash_state(p5, 0) == (0x0379AFD4u32, 0xEC675A70u32));
    let p6 = p5.push('f');
    assert(p6.drop_last() =~= p5 && p6.last() == 'f');
    assert(hash_byte('f') == 70);
    assert(hash_state(p6, 0) == (0xD78A3C92u32, 0x50DCE54Bu32));
    let p7 = p6.push('i');
    assert(p7.drop_last() =~= p6 && p7.last() == 'i');
    assert(hash_byte('i') == 73);
    assert(hash_state(p7, 0) == (0x62DB5C1Au32, 0xCF54EB11u32));
    let p8 = p7.push('l');
    assert(p8.drop_last() =~= p7 && p8.last() == 'l');
    assert(hash_byte('l') == 76);
    assert(hash_state(p8, 0) == (0x5288C82Cu32, 0x0C7B15ACu32));
    let p9 = p8.push('e');
    assert(p9.drop_last() =~= p8 && p9.last() == 'e');
    assert(hash_byte('e') == 69);
    assert(hash_state(p9, 0) == (0x2618AABCu32, 0xC1F67630u32));
    let p10 = p9.push(')');
    assert(p10.drop_last() =~= p9 && p10.last() == ')');
    assert(hash_byte(')') == 41);
    assert(hash_state(p10, 0) == (0x5F3DE859u32, 0x600324B5u32));
    assert("(listfile)"@ =~= p10) by {
        assert("(listfile)"@ =~= seq!['(', 'l', 'i', 's', 't', 'f', 'i', 'l', 'e', ')']);
    }
}

/// The block-1 words that the characters of `(listfile)` pick.
proof fn lemma_hash_vector_1_words()
    ensures
        crypt_entry(296) == 0xAAFD2811u32,
        crypt_entry(297) == 0x55B22D21u32,
        crypt_entry(325) == 0xA1094BF0u32,
        crypt_entry(326) == 0xC680EC6Cu32,
        crypt_entry(329) == 0x6A227D2Fu32,
        crypt_entry(332) == 0x2BBD05EEu32,
        crypt_entry(339) == 0xD3723E97u32,
        crypt_entry(340) == 0x92F66CAFu32,
{
    lemma_table_words();
}

/// The Storm hash of `(listfile)` under type 1, one character at a time.
proof fn lemma_hash_vector_1()
    ensures
        storm_hash("(listfile)"@, 1) == 0xFD657910u32,
{
    lemma_hash_vector_1_words();
    assert(0xAAFD2811u32 ^ 0x6EDC6EDBu32 == 0xC42146CAu32 && 0xEEEEEEEEu32 << 5u32 == 0xDDDDDDC0u32 && 0x2BBD05EEu32 ^ 0x550F5A6Du32 == 0x7EB25F83u32 && 0x90EE13A3u32 << 5u32 == 0x1DC27460u32 && 0x6A227D2Fu32 ^ 0xAC154758u32 == 0xC6373A77u32 && 0x2D62E7D5u32 << 5u32 == 0xAC5CFAA0u32 && 0xD3723E97u32 ^ 0x662E57AFu32 == 0xB55C6938u32 && 0x9FF71D38u32 << 5u32 == 0xFEE3A700u32 && 0x92F66CAFu32 ^ 0x099396FEu32 == 0x9B65FA51u32 && 0x54372DC6u32 << 5u32 == 0x86E5B8C0u32 && 0xC680EC6Cu32 ^ 0x11E8DB7Fu32 == 0xD7683713u32 && 0x7682E12Eu32 << 5u32 == 0xD05C25C0u32 && 0x6A227D2Fu32 ^ 0xF5AF755Du32 == 0x9F8D0872u32 && 0x1E473E4Au32 << 5u32 == 0xC8E7C940u32 && 0x2BBD05EEu32 ^ 0x264918BAu32 == 0x0DF41D54u32 && 0x86BC1048u32 << 5u32 == 0xD7820900u32 && 0xA1094BF0u32 ^ 0x7A26543Fu32 == 0xDB2F1FCFu32 && 0x6C3236EBu32 << 5u32 == 0x8646DD60u32 && 0x55B22D21u32 ^ 0xA8D75431u32 == 0xFD657910u32 && 0xCDA83462u32 << 5u32 == 0xB5068C40u32) by (bit_vector);
    reveal_strlit("(listfile)");
    let p0 = Seq::<char>::empty();
    assert(hash_state(p0, 1) == (0x7FED7FEDu32, 0xEEEEEEEEu32));
    let p1 = p0.push('(');
    assert(p1.drop_last() =~= p0 && p1.last() == '(');
    assert(hash_byte('(') == 40);
    assert(hash_state(p1, 1) == (0xC42146CAu32, 0x90EE13A3u32));
    let p2 = p1.push('l');
    assert(p2.drop_last() =~= p1 && p2.last() == 'l');
    assert(hash_byte('l') == 76);
    assert(hash_state(p2, 1) == (0x7EB25F83u32, 0x2D62E7D5u32));
    let p3 = p2.push('i');
    assert(p3.drop_last() =~= p2 && p3.last() == 'i');
    assert(hash_byte('i') == 73);
    assert(hash_state(p3, 1) == (0xC6373A77u32, 0x9FF71D38u32));
    let p4 = p3.push('s');
    assert(p4.drop_last() =~= p3 && p4.last() == 's');
    assert(hash_byte('s') == 83);
    assert(hash_state(p4, 1) == (0xB55C6938u32, 0x54372DC6u32));
    let p5 = p4.push('t');
    assert(p5.drop_last() =~= p4 && p5.last() == 't');
    assert(hash_byte('t') == 84);
    assert(hash_state(p5, 1) == (0x9B65FA51u32, 0x7682E12Eu32));
    let p6 = p5.push('f');
    assert(p6.drop_last() =~= p5 && p6.last() == 'f');
    assert(hash_byte('f') == 70);
    assert(hash_state(p6, 1) == (0xD7683713u32, 0x1E473E4Au32));
    let p7 = p6.push('i');
    assert(p7.drop_last() =~= p6 && p7.last() == 'i');
    assert(hash_byte('i') == 73);
    assert(hash_state(p7, 1) == (0x9F8D0872u32, 0x86BC1048u32));
    let p8 = p7.push('l');
    assert(p8.drop_last() =~= p7 && p8.last() == 'l');
    assert(hash_byte('l') == 76);
    assert(hash_state(p8, 1) == (0x0DF41D54u32, 0x6C3236EBu32));
    let p9 = p8.push('e');
    assert(p9.drop_last() =~= p8 && p9.last() == 'e');
    assert(hash_byte('e') == 69);
    assert(hash_state(p9, 1) == (0xDB2F1FCFu32, 0xCDA83462u32));
    let p10 = p9.push(')');
    assert(p10.drop_last() =~= p9 && p10.last() == ')');
    assert(hash_byte(')') == 41);
    assert(hash_state(p10, 1) == (0xFD657910u32, 0x801439DEu32));
    assert("(listfile)"@ =~= p10) by {
        assert("(listfile)"@ =~= seq!['(', 'l', 'i', 's', 't', 'f', 'i', 'l', 'e', ')']);
    }
}

/// The block-2 words that the characters of `(listfile)` pick.
proof fn lemma_hash_vector_2_words()
    ensures
        crypt_entry(552) == 0x3AEF1BF2u32,
        crypt_entry(553) == 0x5E5D68A2u32,
        crypt_entry(581) == 0xBECE2A7Au32,
        crypt_entry(582) == 0x70A4554Bu32,
        crypt_entry(585) == 0x1FE391D6u32,
        crypt_entry(588) == 0xE5153086u32,
        crypt_entry(595) == 0xE4EF735Cu32,
        crypt_entry(596) == 0xBC062438u32,
{
    lemma_table_words();
}

/// The Storm hash of `(listfile)` under type 2, one character at a time.
proof fn lemma_hash_vector_2()
    ensures
        storm_hash("(listfile)"@, 2) == 0x4E9B98A7u32,
{
    lemma_hash_vector_2_words();
    assert(0x3AEF1BF2u32 ^ 0x6EDC6EDBu32 == 0x54337529u32 && 0xEEEEEEEEu32 << 5u32 == 0xDDDDDDC0u32 && 0xE5153086u32 ^ 0x7533B72Bu32 == 0x902687ADu32 && 0x21004202u32 << 5u32 == 0x20084040u32 && 0x1FE391D6u32 ^ 0x615591EBu32 == 0x7EB6003Du32 && 0xD12F0A3Eu32 << 5u32 == 0x25E147C0u32 && 0xE4EF735Cu32 ^ 0xF47C52C4u32 == 0x10932198u32 && 0x75C65287u32 << 5u32 == 0xB8CA50E0u32 && 0xBC062438u32 ^ 0x4FB6E6EDu32 == 0xF3B0C2D5u32 && 0x3F23C555u32 << 5u32 == 0xE478AAA0u32 && 0x70A4554Bu32 ^ 0x0AFDF5F6u32 == 0x7A59A0BDu32 && 0x174D3321u32 << 5u32 == 0xE9A66420u32 && 0x1FE391D6u32 ^ 0xF5A6D904u32 == 0xEA4548D2u32 && 0x7B4D3847u32 << 5u32 == 0x69A708E0u32 && 0xE5153086u32 ^ 0xB97ED317u32 == 0x5C6BE391u32 && 0xCF398A45u32 << 5u32 == 0xE73148A0u32 && 0xBECE2A7Au32 ^ 0x6F429A56u32 == 0xD18CB02Cu32 && 0x12D6B6C5u32 << 5u32 == 0x5AD6D8A0u32 && 0x5E5D68A2u32 ^ 0x10C6F005u32 == 0x4E9B98A7u32 && 0x3F3A3FD9u32 << 5u32 == 0xE747FB20u32) by (bit_vector);
    reveal_strlit("(listfile)");
    let p0 = Seq::<char>::empty();
    assert(hash_state(p0, 2) == (0x7FED7FEDu32, 0xEEEEEEEEu32));
    let p1 = p0.push('(');
    assert(p1.drop_last() =~= p0 && p1.last() == '(');
    assert(hash_byte('(') == 40);
    assert(hash_state(p1, 2) == (0x54337529u32, 0x21004202u32));
    let p2 = p1.push('l');
    assert(p2.drop_last() =~= p1 && p2.last() == 'l');
    assert(hash_byte('l') == 76);
    assert(hash_state(p2, 2) == (0x902687ADu32, 0xD12F0A3Eu32));
    let p3 = p2.push('i');
    assert(p3.drop_last() =~= p2 && p3.last() == 'i');
    assert(hash_byte('i') == 73);
    assert(hash_state(p3, 2) == (0x7EB6003Du32, 0x75C65287u32));
    let p4 = p3.push('s');
    assert(p4.drop_last() =~= p3 && p4.last() == 's');
    assert(hash_byte('s') == 83);
    assert(hash_state(p4, 2) == (0x10932198u32, 0x3F23C555u32));
    let p5 = p4.push('t');
    assert(p5.drop_last() =~= p4 && p5.last() == 't');
    assert(hash_byte('t') == 84);
    assert(hash_state(p5, 2) == (0xF3B0C2D5u32, 0x174D3321u32));
    let p6 = p5.push('f');
    assert(p6.drop_last() =~= p5 && p6.last() == 'f');
    assert(hash_byte('f') == 70);
    assert(hash_state(p6, 2) == (0x7A59A0BDu32, 0x7B4D3847u32));
    let p7 = p6.push('i');
    assert(p7.drop_last() =~= p6 && p7.last() == 'i');
    assert(hash_byte('i') == 73);
    assert(hash_state(p7, 2) == (0xEA4548D2u32, 0xCF398A45u32));
    let p8 = p7.push('l');
    assert(p8.drop_last() =~= p7 && p8.last() == 'l');
    assert(hash_byte('l') == 76);
    assert(hash_state(p8, 2) == (0x5C6BE391u32, 0x12D6B6C5u32));
    let p9 = p8.push('e');
    assert(p9.drop_last() =~= p8 && p9.last() == 'e');
    assert(hash_byte('e') == 69);
    assert(hash_state(p9, 2) == (0xD18CB02Cu32, 0x3F3A3FD9u32));
    let p10 = p9.push(')');
    assert(p10.drop_last() =~= p9 && p10.last() == ')');
    assert(hash_byte(')') == 41);
    assert(hash_state(p10, 2) == (0x4E9B98A7u32, 0x751DD3CCu32));
    assert("(listfile)"@ =~= p10) by {
        assert("(listfile)"@ =~= seq!['(', 'l', 'i', 's', 't', 'f', 'i', 'l', 'e', ')']);
    }
}

/// The block-3 words that the characters of `(hash table)` pick.
proof fn lemma_hash_vector_3_words()
    ensures
        crypt_entry(800) == 0xC25F92EFu32,
        crypt_entry(808) == 0xA50A406Fu32,
        crypt_entry(809) == 0x6C508D9Fu32,
        crypt_entry(833) == 0x8CB50992u32,
        crypt_entry(834) == 0x9B58D9EEu32,
        crypt_entry(837) == 0xBD9591B0u32,
        crypt_entry(840) == 0x0286E618u32,
        crypt_entry(844) == 0x5C10490Bu32,
        crypt_entry(851) == 0x53E19F7Du32,
        crypt_entry(852) == 0x59FF46B5u32,
{
    lemma_table_words();
}

/// The Storm hash of `(hash table)` under type 3, one character at a time.
proof fn lemma_hash_vector_3()
    ensures
        storm_hash("(hash table)"@, 3) == 0xC3AF3770u32,
{
    lemma_hash_vector_3_words();
    assert(0xA50A406Fu32 ^ 0x6EDC6EDBu32 == 0xCBD62EB4u32 && 0xEEEEEEEEu32 << 5u32 == 0xDDDDDDC0u32 && 0x0286E618u32 ^ 0x64792A41u32 == 0x66FFCC59u32 && 0x98A2FB8Du32 << 5u32 == 0x145F71A0u32 && 0x8CB50992u32 ^ 0x7B02062Au32 == 0xF7B70FB8u32 && 0x140239D1u32 << 5u32 == 0x80473A20u32 && 0x53E19F7Du32 ^ 0x83B793A5u32 == 0xD0560CD8u32 && 0x8C0083EDu32 << 5u32 == 0x80107DA0u32 && 0x0286E618u32 ^ 0xACBD1B93u32 == 0xAE3BFD8Bu32 && 0xDC670EBBu32 << 5u32 == 0x8CE1D760u32 && 0xC25F92EFu32 ^ 0xC5C0E17Cu32 == 0x079F7393u32 && 0x1784E3F1u32 << 5u32 == 0xF09C7E20u32 && 0x59FF46B5u32 ^ 0x1760495Au32 == 0x4E9F0FEFu32 && 0x0FC0D5C7u32 << 5u32 == 0xF81AB8E0u32 && 0x8CB50992u32 ^ 0xA519AEDCu32 == 0x29ACA74Eu32 && 0x567A9EEDu32 << 5u32 == 0xCF53DDA0u32 && 0x9B58D9EEu32 ^ 0x7927CB6Du32 == 0xE27F1283u32 && 0x4F7B241Fu32 << 5u32 == 0xEF6483E0u32 && 0x5C10490Bu32 ^ 0x03DDCD4Au32 == 0x5FCD8441u32 && 0x215EBAC7u32 << 5u32 == 0x2BD758E0u32 && 0xBD9591B0u32 ^ 0x0CD11C78u32 == 0xB1448DC8u32 && 0xAD039837u32 << 5u32 == 0xA07306E0u32 && 0x6C508D9Fu32 ^ 0xAFFFBAEFu32 == 0xC3AF3770u32 && 0xFEBB2D27u32 << 5u32 == 0xD765A4E0u32) by (bit_vector);
    reveal_strlit("(hash table)");
    let p0 = Seq::<char>::empty();
    assert(hash_state(p0, 3) == (0x7FED7FEDu32, 0xEEEEEEEEu32));
    let p1 = p0.push('(');
    assert(p1.drop_last() =~= p0 && p1.last() == '(');
    assert(hash_byte('(') == 40);
    assert(hash_state(p1, 3) == (0xCBD62EB4u32, 0x98A2FB8Du32));
    let p2 = p1.push('h');
    assert(p2.drop_last() =~= p1 && p2.last() == 'h');
    assert(hash_byte('h') == 72);
    assert(hash_state(p2, 3) == (0x66FFCC59u32, 0x140239D1u32));
    let p3 = p2.push('a');
    assert(p3.drop_last() =~= p2 && p3.last() == 'a');
    assert(hash_byte('a') == 65);
    assert(hash_state(p3, 3) == (0xF7B70FB8u32, 0x8C0083EDu32));
    let p4 = p3.push('s');
    assert(p4.drop_last() =~= p3 && p4.last() == 's');
    assert(hash_byte('s') == 83);
    assert(hash_state(p4, 3) == (0xD0560CD8u32, 0xDC670EBBu32));
    let p5 = p4.push('h');
    assert(p5.drop_last() =~= p4 && p5.last() == 'h');
    assert(hash_byte('h') == 72);
    assert(hash_state(p5, 3) == (0xAE3BFD8Bu32, 0x1784E3F1u32));
    let p6 = p5.push(' ');
    assert(p6.drop_last() =~= p5 && p6.last() == ' ');
    assert(hash_byte(' ') == 32);
    assert(hash_state(p6, 3) == (0x079F7393u32, 0x0FC0D5C7u32));
    let p7 = p6.push('t');
    assert(p7.drop_last() =~= p6 && p7.last() == 't');
    assert(hash_byte('t') == 84);
    assert(hash_state(p7, 3) == (0x4E9F0FEFu32, 0x567A9EEDu32));
    let p8 = p7.push('a');
    assert(p8.drop_last() =~= p7 && p8.last() == 'a');
    assert(hash_byte('a') == 65);
    assert(hash_state(p8, 3) == (0x29ACA74Eu32, 0x4F7B241Fu32));
    let p9 = p8.push('b');
    assert(p9.drop_last() =~= p8 && p9.last() == 'b');
    assert(hash_byte('b') == 66);
    assert(hash_state(p9, 3) == (0xE27F1283u32, 0x215EBAC7u32));
    let p10 = p9.push('l');
    assert(p10.drop_last() =~= p9 && p10.last() == 'l');
    assert(hash_byte('l') == 76);
    assert(hash_state(p10, 3) == (0x5FCD8441u32, 0xAD039837u32));
    let p11 = p10.push('e');
    assert(p11.drop_last() =~= p10 && p11.last() == 'e');
    assert(hash_byte('e') == 69);
    assert(hash_state(p11, 3) == (0xB1448DC8u32, 0xFEBB2D27u32));
    let p12 = p11.push(')');
    assert(p12.drop_last() =~= p11 && p12.last() == ')');
    assert(hash_byte(')') == 41);
    assert(hash_state(p12, 3) == (0xC3AF3770u32, 0x99D009A3u32));
    assert("(hash table)"@ =~= p12) by {
        assert("(hash table)"@ =~= seq!['(', 'h', 'a', 's', 'h', ' ', 't', 'a', 'b', 'l', 'e', ')']);
    }
}

/// The block-3 words that the characters of `(block table)` pick.
proof fn lemma_hash_vector_4_words()
    ensures
        crypt_entry(800) == 0xC25F92EFu32,
        crypt_entry(808) == 0xA50A406Fu32,
        crypt_entry(809) == 0x6C508D9Fu32,
        crypt_entry(833) == 0x8CB50992u32,
        crypt_entry(834) == 0x9B58D9EEu32,
        crypt_entry(835) == 0xE5AB79CCu32,
        crypt_entry(837) == 0xBD9591B0u32,
        crypt_entry(843) == 0x754C4617u32,
        crypt_entry(844) == 0x5C10490Bu32,
        crypt_entry(847) == 0x5775095Bu32,
        crypt_entry(852) == 0x59FF46B5u32,
{
    lemma_table_words();
}

/// The Storm hash of `(block table)` under type 3, one character at a time.
proof fn lemma_hash_vector_4()
    ensures
        storm_hash("(block table)"@, 3) == 0xEC83B3A3u32,
{
    lemma_hash_vector_4_words();
    assert(0xA50A406Fu32 ^ 0x6EDC6EDBu32 == 0xCBD62EB4u32 && 0xEEEEEEEEu32 << 5u32 == 0xDDDDDDC0u32 && 0x9B58D9EEu32 ^ 0x64792A41u32 == 0xFF21F3AFu32 && 0x98A2FB8Du32 << 5u32 == 0x145F71A0u32 && 0x5C10490Bu32 ^ 0xAB4654D0u32 == 0xF7561DDBu32 && 0xAC246121u32 << 5u32 == 0x848C2420u32 && 0x5775095Bu32 ^ 0x1F5CC146u32 == 0x4829C81Du32 && 0x2806A36Bu32 << 5u32 == 0x00D46D60u32 && 0xE5AB79CCu32 ^ 0xB92EA157u32 == 0x5C85D89Bu32 && 0x7104D93Au32 << 5u32 == 0x209B2740u32 && 0x754C4617u32 ^ 0x4AABB1F6u32 == 0x3FE7F7E1u32 && 0xEE25D95Bu32 << 5u32 == 0xC4BB2B60u32 && 0xC25F92EFu32 ^ 0x32B0F4CBu32 == 0xF0EF6624u32 && 0xF2C8FCEAu32 << 5u32 == 0x591F9D40u32 && 0x59FF46B5u32 ^ 0x2DC76695u32 == 0x74382020u32 && 0x3CD80071u32 << 5u32 == 0x9B000E20u32 && 0x8CB50992u32 ^ 0xC0484F28u32 == 0x4CFD46BAu32 && 0x4C102F08u32 << 5u32 == 0x8205E100u32 && 0x9B58D9EEu32 ^ 0x68109DC0u32 == 0xF348442Eu32 && 0x1B135706u32 << 5u32 == 0x626AE0C0u32 && 0x5C10490Bu32 ^ 0x640EC067u32 == 0x381E896Cu32 && 0x70C67C39u32 << 5u32 == 0x18CF8720u32 && 0xBD9591B0u32 ^ 0xF9D31680u32 == 0x44468730u32 && 0xC1B48D14u32 << 5u32 == 0x3691A280u32 && 0x6C508D9Fu32 ^ 0x80D33E3Cu32 == 0xEC83B3A3u32 && 0x3C8CB70Cu32 << 5u32 == 0x9196E180u32) by (bit_vector);
    reveal_strlit("(block table)");
    let p0 = Seq::<char>::empty();
    assert(hash_state(p0, 3) == (0x7FED7FEDu32, 0xEEEEEEEEu32));
    let p1 = p0.push('(');
    assert(p1.drop_last() =~= p0 && p1.last() == '(');
    assert(hash_byte('(') == 40);
    assert(hash_state(p1, 3) == (0xCBD62EB4u32, 0x98A2FB8Du32));
    let p2 = p1.push('b');
    assert(p2.drop_last() =~= p1 && p2.last() == 'b');
    assert(hash_byte('b') == 66);
    assert(hash_state(p2, 3) == (0xFF21F3AFu32, 0xAC246121u32));
    let p3 = p2.push('l');
    assert(p3.drop_last() =~= p2 && p3.last() == 'l');
    assert(hash_byte('l') == 76);
    assert(hash_state(p3, 3) == (0xF7561DDBu32, 0x2806A36Bu32));
    let p4 = p3.push('o');
    assert(p4.drop_last() =~= p3 && p4.last() == 'o');
    assert(hash_byte('o') == 79);
    assert(hash_state(p4, 3) == (0x4829C81Du32, 0x7104D93Au32));
    let p5 = p4.push('c');
    assert(p5.drop_last() =~= p4 && p5.last() == 'c');
    assert(hash_byte('c') == 67);
    assert(hash_state(p5, 3) == (0x5C85D89Bu32, 0xEE25D95Bu32));
    let p6 = p5.push('k');
    assert(p6.drop_last() =~= p5 && p6.last() == 'k');
    assert(hash_byte('k') == 75);
    assert(hash_state(p6, 3) == (0x3FE7F7E1u32, 0xF2C8FCEAu32));
    let p7 = p6.push(' ');
    assert(p7.drop_last() =~= p6 && p7.last() == ' ');
    assert(hash_byte(' ') == 32);
    assert(hash_state(p7, 3) == (0xF0EF6624u32, 0x3CD80071u32));
    let p8 = p7.push('t');
    assert(p8.drop_last() =~= p7 && p8.last() == 't');
    assert(hash_byte('t') == 84);
    assert(hash_state(p8, 3) == (0x74382020u32, 0x4C102F08u32));
    let p9 = p8.push('a');
    assert(p9.drop_last() =~= p8 && p9.last() == 'a');
    assert(hash_byte('a') == 65);
    assert(hash_state(p9, 3) == (0x4CFD46BAu32, 0x1B135706u32));
    let p10 = p9.push('b');
    assert(p10.drop_last() =~= p9 && p10.last() == 'b');
    assert(hash_byte('b') == 66);
    assert(hash_state(p10, 3) == (0xF348442Eu32, 0x70C67C39u32));
    let p11 = p10.push('l');
    assert(p11.drop_last() =~= p10 && p11.last() == 'l');
    assert(hash_byte('l') == 76);
    assert(hash_state(p11, 3) == (0x381E896Cu32, 0xC1B48D14u32));
    let p12 = p11.push('e');
    assert(p12.drop_last() =~= p11 && p12.last() == 'e');
    assert(hash_byte('e') == 69);
    assert(hash_state(p12, 3) == (0x44468730u32, 0x3C8CB70Cu32));
    let p13 = p12.push(')');
    assert(p13.drop_last() =~= p12 && p13.last() == ')');
    assert(hash_byte(')') == 41);
    assert(hash_state(p13, 3) == (0xEC83B3A3u32, 0xBAA74C5Bu32));
    assert("(block table)"@ =~= p13) by {
        assert("(block table)"@ =~= seq!['(', 'b', 'l', 'o', 'c', 'k', ' ', 't', 'a', 'b', 'l', 'e', ')']);
    }
}

/// The Storm hashes of the names an MPQ reader looks up: the hash-table
/// slot (type 0) and the two name checks (types 1 and 2) of `(listfile)`,
/// and the keys (type 3) of the hash and block tables.
pub proof fn law_storm_reference_hashes()
    ensures
        storm_hash("(listfile)"@, 0) == 0x5F3DE859u32,
        storm_hash("(listfile)"@, 1) == 0xFD657910u32,
        storm_hash("(listfile)"@, 2) == 0x4E9B98A7u32,
        storm_hash("(hash table)"@, 3) == 0xC3AF3770u32,
        storm_hash("(block table)"@, 3) == 0xEC83B3A3u32,
{
    lemma_hash_vector_0();
    lemma_hash_vector_1();
    lemma_hash_vector_2();
    lemma_hash_vector_3();
    lemma_hash_vector_4();
}

/// The block-4 words that the key schedule of the reference ciphertext picks.
proof fn lemma_cipher_words()
    ensures
        crypt_entry(1136) == 0xD39EA96Eu32,
        crypt_entry(1271) == 0x30930D02u32,
        crypt_entry(1087) == 0x2F316022u32,
        crypt_entry(1211) == 0x0FB5560Cu32,
{
    lemma_table_words();
}

/// The table cipher as MPQ archives use it: the `(listfile)` entry of a
/// hash table (its two name hashes, locale and platform 0, block 0),
/// enciphered under the hash table's key `0xC3AF3770`, deciphers to that
/// entry word for word; the key schedule and the mixing of every word
/// after the first take part.
pub proof fn law_table_cipher_reference()
    ensures
        spec_decrypt(seq![0x7B59B6DCu32, 0x2BA9074Fu32, 0x5940C01Cu32, 0x25682647u32], 0xC3AF3770u32) == seq![0xFD657910u32, 0x4E9B98A7u32, 0x00000000u32, 0x00000000u32],
{
    lemma_cipher_words();
    assert(0xC3AF3770u32 & 0xFFu32 == 0x00000070u32 && 0x7B59B6DCu32 ^ 0x863CCFCCu32 == 0xFD657910u32 && (!0xC3AF3770u32) << 0x15u32 == 0x11E00000u32 && 0xC3AF3770u32 >> 0x0Bu32 == 0x001875E6u32 && 0x22F11111u32 | 0x001875E6u32 == 0x22F975F7u32 && 0xC28D985Cu32 << 5u32 == 0x51B30B80u32 && 0x22F975F7u32 & 0xFFu32 == 0x000000F7u32 && 0x2BA9074Fu32 ^ 0x65329FE8u32 == 0x4E9B98A7u32 && (!0x22F975F7u32) << 0x15u32 == 0x41000000u32 && 0x22F975F7u32 >> 0x0Bu32 == 0x00045F2Eu32 && 0x52111111u32 | 0x00045F2Eu32 == 0x52155F3Fu32 && 0x423929F1u32 << 5u32 == 0x47253E20u32 && 0x52155F3Fu32 & 0xFFu32 == 0x0000003Fu32 && 0x5940C01Cu32 ^ 0x5940C01Cu32 == 0x00000000u32 && (!0x52155F3Fu32) << 0x15u32 == 0x18000000u32 && 0x52155F3Fu32 >> 0x0Bu32 == 0x000A42ABu32 && 0x29111111u32 | 0x000A42ABu32 == 0x291B53BBu32 && 0x072B60DDu32 << 5u32 == 0xE56C1BA0u32 && 0x291B53BBu32 & 0xFFu32 == 0x000000BBu32 && 0x25682647u32 ^ 0x25682647u32 == 0x00000000u32 && (!0x291B53BBu32) << 0x15u32 == 0x88800000u32 && 0x291B53BBu32 >> 0x0Bu32 == 0x0005236Au32 && 0x99911111u32 | 0x0005236Au32 == 0x9995337Bu32 && 0xFC4CD28Cu32 << 5u32 == 0x899A5180u32) by (bit_vector);
    assert(decrypt_from(Seq::<u32>::empty(), 0x9995337Bu32, 0x85E7240Fu32) =~= Seq::<u32>::empty());
    assert(seq![0x25682647u32].drop_first() =~= Seq::<u32>::empty());
    assert(seq![0x25682647u32][0] == 0x25682647u32);
    assert(decrypt_from(seq![0x25682647u32], 0x291B53BBu32, 0xEC977C80u32) =~= seq![0x00000000u32]);
    assert(seq![0x5940C01Cu32, 0x25682647u32].drop_first() =~= seq![0x25682647u32]);
    assert(seq![0x5940C01Cu32, 0x25682647u32][0] == 0x5940C01Cu32);
    assert(decrypt_from(seq![0x5940C01Cu32, 0x25682647u32], 0x52155F3Fu32, 0xD7FA00BBu32) =~= seq![0x00000000u32, 0x00000000u32]);
    assert(seq![0x2BA9074Fu32, 0x5940C01Cu32, 0x25682647u32].drop_first() =~= seq![0x5940C01Cu32, 0x25682647u32]);
    assert(seq![0x2BA9074Fu32, 0x5940C01Cu32, 0x25682647u32][0] == 0x2BA9074Fu32);
    assert(decrypt_from(seq![0x2BA9074Fu32, 0x5940C01Cu32, 0x25682647u32], 0x22F975F7u32, 0x11A61CEFu32) =~= seq![0x4E9B98A7u32, 0x00000000u32, 0x00000000u32]);
    assert(seq![0x7B59B6DCu32, 0x2BA9074Fu32, 0x5940C01Cu32, 0x25682647u32].drop_first() =~= seq![0x2BA9074Fu32, 0x5940C01Cu32, 0x25682647u32]);
    assert(seq![0x7B59B6DCu32, 0x2BA9074Fu32, 0x5940C01Cu32, 0x25682647u32][0] == 0x7B59B6DCu32);
    assert(decrypt_from(seq![0x7B59B6DCu32, 0x2BA9074Fu32, 0x5940C01Cu32, 0x25682647u32], 0xC3AF3770u32, 0xEEEEEEEEu32) =~= seq![0xFD657910u32, 0x4E9B98A7u32, 0x00000000u32, 0x00000000u32]);
}

} // verus!
