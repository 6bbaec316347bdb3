//! Validates key generation and verification against the reference `slh-dsa` (RustCrypto)
//! implementation, for the SHAKE and SHA2 category-1 parameter sets.
//!
//! Reference keys and signatures come from fixed seeds through the deterministic FIPS 205
//! internal interfaces; the recomputed `PK.root` is compared against the reference public key.

use slh_dsa::{
    ParameterSet, Sha2_128f, Sha2_128s, Shake128f, Shake128s, Signature, SigningKey, VerifyingKey,
};
use zkboo_slhdsa::{
    slh_dsa_sha2_128f, slh_dsa_sha2_128s, slh_dsa_shake_128f, slh_dsa_shake_128s, slh_keygen_root,
    slh_verify_root, SlhDsaParams, N,
};

/// Reference key material and a reference signature over `MSG`.
struct Reference {
    sk_seed: [u8; N],
    pk_seed: [u8; N],
    pk_root: [u8; N],
    sig: Vec<u8>,
}

const MSG: &[u8] = b"zkboo-slhdsa reference message";

/// A SLH-DSA-SHAKE-128s signature over the internal message `0x00 ‖ 0x00 ‖ MSG`, made from the
/// seeds of [seeds] with the deterministic randomizer (`opt_rand = PK.seed`).
const SIG_SHAKE_128S_HEX: &[&str] = &[
    "806b79afde0d71810c7da71965b1635b198567344076c81eba6344fb2a268c6c4b70fd628a252dac5bcd0efd7518b4ad",
    "d87668e74bc285387d3de301000afbbf675f27684e726f6d1bdde1003835172d333887060832ae8f9a42e12b4926dd42",
    "7ec26563dbb71a16304dd1fb2f7e217e78bb342a51754aeae1876867e62f0c1581a6eb1f3e442cd54835359a9333bd3f",
    "8bf10808b65ea613ce6689a863e11e868245a392314450de09a33cd89e59d2cf4ad2f2739b1adca6bbbe8eae0dc5a078",
    "ee53eebb802c4d38c4c0f0cb9b75b3bd76087744668e871a8c75e55f480a76487b682cc403397e3837ce36f824997d10",
    "9e06bde526ca6a5ca9bb7d0bbea7ed7e14d8b02ae07745781cea51ee6e0f716d918eb8069592bd4729ddadfd918140c0",
    "961b9198a1356c679ec5e70d312393398f5442a35a943bcf8536524f22e473d9c88635fe04e3a321d7505e5d7a585c37",
    "c331b540f07558880a1e372e6e1b86b75dadc0c4061b35be451dce2162214294809828ff474e8a7bd6cd691d5656ea1c",
    "455dab1524fa5fda5c74dc87dc367db44add6da36baa9d46382bbd52063b7d3aa7c18f5111cf5f0db4db539027be0586",
    "7ccf5d617830d6936d36956f87ee1963b50c4338c75b53abadcdd0999f1559863b40a9d757335047d52af791bff6ac21",
    "f23a1243ebd8e125d964f6678d129186a675d0d3f92226bac5318388a13e1fd51099bee4bec457e292e72e76e604af2a",
    "b44cca433edb1152e537a003cf1faea51f2815285f5098dc9350e76baee102513425af1d6af55a90e9efd4f64cb84e26",
    "f6591671deecf25223dafb2b8fe81a51541cc8ca6a982255849eb417da3d950f0afe65643cae73e6535174a0c21df795",
    "7f99d3d22b557a7f674668cbd1928160735684b2df9ae97cda9db4bdc445797ab2f457e76506c95b109a8b49f3a3d1da",
    "4f4fe5e69b579441f329d3a13fa17c47d7cea96f9008675235f097d37468261bcf0cc08c2f92934d3375162b0bbf002f",
    "4e2c4a617861d50038e68dfd86acc3a9d74949fce3f0616a0bc9e2bc446cb5977cf1029198b4ff3f43aa80fed59cba12",
    "229ccd307464918934a1f6dac9327d974b5fb55f59292e7da08f36d49ee874899fa60ef7ac9ed00bea0d02d56a32afc4",
    "220a30676b6aab0d696351d61d17e3ae22dc7be1bcfab17bbf215485d9a0810fe6b9eff318c6165cdae795e9faeb2c03",
    "1e7ec045d30bbcc870d3921cc3546bef2f46400c2314bded2d2b201efab35b4f00c5226235b9194b1b18e898ffa451b7",
    "f5ca248b2b27ce7a4f6ef41080f99cdb134f1826ff2c3e935a64c7672699abe18e36d2e887e22bb8861127fae0cb7890",
    "816b719ca76cabf95e59c060190cf180cf9247df51f05c11335ac04cf28f8108792f49a1dace7c10cb394c74cfadefb9",
    "e3a1895063a8f995045360173bf6f62bfd19bfc7d76bd304549ffafccba717b44b1748f663f10b3d6a39767b9eb6bc15",
    "ac58174c0b5d202a9b1089c8cf1be402781ce7db27f4bc55c34069228c15e56c2d2c31b37b8c31840ff42609a29fc737",
    "4789103a6121cd207cb1f25c5d8f706ce6c4a821db15ecc0ec24f5dbbb3469dafa10bfb0ff560158d2c96cf607fbf6e1",
    "c2ef86fe83fb76b4541e57f2a79289865c1acb25fe13c993c5e99596dd2e50e39fbdff2bea901065e84c8eaa3cebaaf2",
    "d3476a89aa81d0ac1248e7327c51a02d1de15f24306e34487d93ebee8a23b0ebf543f5845a5bba6736d3acd40aebc0fe",
    "6c1ad8da072a1fcdbea849c716cbfc3da717449e478575ac883f29cdebca323900d33bf6f65ffb0c09dd607fab578bcc",
    "591adc029aca6d36f4bf081381062f90f361f109f4b18384255e550125bdf5638fb3a819481875d056d463adb344b1ad",
    "d4c14a7b201d7c963a049eaf448e6cc20b91259e2638e026ee1aaa5aeea16e93a03b19da84921f766b207b5aaa11c3f3",
    "81dd509805ab73a62d58f6fc4d54ba7b136f5749ab4c792a0c5418c4d32a7efc75bacc55d46101c4be35e2167013670a",
    "ac6fd6741c7174e337f3075552a354155116d4531f1e628be630b66ca0e4cf17dd357b7095c76d9a7440d61ea22070c6",
    "4cc3f329e096b71193d467eeb17bc5b527b0fccd4f9cc34b262307d2f37a73bd2861d7edfec27a860c5b49ed41fa0cc8",
    "a987a89836d9fad2fdd23707aab38a3895af0bc6de2d19f34be4749e65e3250eb662dd0b334e5bd26e5043948b3708b0",
    "49ff93532ce395c18987cf0904688e65983a844d08c1695b0ad906d58d6a9492b3a72b6d4c8c356f7c0bb153e47767d2",
    "c31e2c9a5207df314835c19f8b95b79644fbd0a4d2ffe0e23737a3a125790d1d67bf3d98e54adf52018f00d2a41569c9",
    "c47fbfb7104b2a4007141137f2f1dfabc2be349b9a716dc80b3458b63968d07d244328ee6161ac5d64e88b67ad95af74",
    "8fed8348492da24d4ec9a79d0abbb8aa5f3433f73b290505e6bdda0b40fb7c5d9ebaa54063cba1411c3edb03f1a33fcc",
    "509effba095899ae5f94258a8504c244b967b08420ac602a1837167d3dabf82986775135f418707d01caa49a9138b717",
    "e105063d3d60c5f9f7d982d3daa88b03598a9feec30fa96c0da28962e338226c6fc5996c4157f57f4e84e9e99180408b",
    "cbeccf6b5317a933bd3d721a9417d8f72ff9bfbb58be35b703994636754b4525ce59b8de8b9f6029fad0dd69f29627ad",
    "d404b984d11df92d51f75d4de4b304ea761bc9974e2f4463dcd90b51269731e9e2c667c74587dee62e3fdaee03be2c33",
    "e23f044af3a4de8ebd37c948114279aaa2239f37d6eb54c4f36a84a3ee4a6f9724cf5d70fca24b2c0641d99a90a3b5e4",
    "a478b15a7d4c1493f3db3a8997f113dada2ad04953332d62cc4ad458508d366e919b9c119134324c38568b2ad7d883cd",
    "b1f2aa6e15a5252dd7738eaba4d2b6d1f895d8e4428458adfdd34bfd80a2cd64dfeb90edd78d54cc9ed1f1f100f97df2",
    "ca64780fc4b6b4a017a749b4f3133225f766e5560974882120841bc48e304bb8f23f5f3bd56748271636b1b7b67381e5",
    "1a0f6cfbd3fe7cb460d517ec37b8ea41cbbe889c1c4271ac45991cdcf6e862dae7c7b097df25c5f6cc072ce084b6d215",
    "ad94c016a8471fe53313c26834fb0cbd0dd9842252891abd69b14d1fc4e5fc6ba614c307e21f8733d719de40ebacdf62",
    "06143d31daffd450b1137cd086236583702a2634f2f1ae75d2cdc5e60c4687b317ec3ce02741032abaed37b59b268f3b",
    "cecb1d6b1b22ec365373a68976be428fcab382121622c82e733f3755771f3e2a8cf2fe9680f8f62e614bf9171e7f751a",
    "4b237bfc6659da93af8276f5eb979199b6370ee263588267b939145e35ccca501134028fb5a51884ebc12d6657105817",
    "ac7faf80b621d1293e73316f6df1067e5a8b92bc89cff964c4b5bd91b9766ad67ce635f9843b8d3ad3e18838377ddb67",
    "9cc2bb8c0e8b4b88f2ff542e72eebf75d9c0210d9db7a6284e2555086db582ef9332427188d46d964660052ffe6cdc8e",
    "f0e6b5732c23ec215c247918402bda06e2fefec72a5e359266a744490fb688dbdacb7b7c0a4fe134c4f7f5556813a7d8",
    "e344388c8760ae19fbb4f970fef5ecced40156b889d95c817b7eb2ebb1f223ed857f00073f1e06a0f6933680493a46ce",
    "bece4ea00691dd2cdd20ad2c1d9e9857fc3e600cbd0c42e2f18a7fa16f406c341180ba995e9ad8de2907b5f17b0bf972",
    "280457fb5c424e757be19b6e8781e92492ea551465dc0e926f8f88d1f557cfa1dc5a9befdb8d444cc99a89c78016d878",
    "ec3920fda1d35f5518688d86b09bdeb9f9564f16b1e8df87fc63fe3ca29c6ef959c7b4beec169192d58ede2665b06476",
    "2ea5c5b090fb089a07570f98ef8c03d7743c132566be8dac7e133ba09b5695514cd96a836c69aafd389afa1cf674298a",
    "a0564bf354cf33ec65811b55e1bb3b4bfcf9446286200e4b9854b3045a4995f957fc5c49ce1f140532c276c328016247",
    "989095a214f60c8757e4efceb4fd56b974de203db1759f7f20c4ad802616df9499f1fba4fb4439e0fd778ef6da00a6a2",
    "f1346a814b62a42bad166d6a995141c114816c8a713e1263c7eea1ce42b33b32afd4a4cee8df5b73153611d26b5d39eb",
    "d0e1633f57d2882ca2da3a6db15c8db6612ff41f00a2d6aedef98fdaa9cdf9e4d5592e218a8ec66fe2f5f1dcec57a9c8",
    "d447915e617de32cda1b0c150823a62b8d7b303557ee34afa7d7f4f17a695d1c15c57472fb0b7bdca6806d5ca675bb20",
    "816346355f55d738a30f273c20576e969ecc30d738cf17dbb1b0c224309967e143df0bc4a3a7763b396eb354cfb90272",
    "494b6f5768082772121a671bfb88cc698cada7b1c43816c3ba5d32a301e0a9a603c8527ac828c59fbbfc027ecfe73157",
    "c4baab6954850c269e4331c9e7ff13876271d25b2fb743d2694bb19743aa606a7b43390c8e7d6131d0a627ad9b2750af",
    "48c87d8ae23967e970cdea763d9c364a98449876ccbc0ce7fb7edbf397303cf5ea949b48e9e8ad40b576a2aa7bc3d7e5",
    "35ce14f736563fc97e9d2b23d93beba43ca91a28afe34f3866d720931719f9253c4d7e7468b6c2b8db9e7b987e872e45",
    "5ec7baf0f910e11978041518e52dfe7fdc68eecaf352b4916cd4198cf46ca3dff7d8b1b62956bc49eef9cb30ce87ce86",
    "504762f10ef09cd3bd9e2a8f816dc743a60845ce6d5aefb734a30b892b385e1c00be0440edaa38b52548afa9d7c0ac88",
    "2e110be8691b9148400046b86a50a3ecf58b11068f2044e0c4e98512ebbec286ca4eaeab99dc04b0317c19537cd35716",
    "dc9524bf7e2892393698b5b0cf601934354e32918024188d948f9784b33365ca84338e345ec4327ff73b98cb55a7ad8d",
    "210afd8e747c52da129df61e8b1cda6ea879ca8adc9a95da65a6eb1a94a97ed736becb1f4370477807920a831680cdc8",
    "9bfa0048604a78cafd0191198d7aeb353575c5978daf4d1ef4e7562f92819b01cc7201321c4a463e238db4d5f2b7d2ca",
    "355766322286be018d59186523e4389f4f9025927b0402990f431a1990e80b93b4733f900e774955fef8aff5d511fa09",
    "cb62a3f9a0b65ec00bbb9dff458ee9421583192064a2f921db5df10db7ac2192a758793395660099cf74497f0771fcf6",
    "15924a6bc8b25a2411f3f2d31f7fff735ee52f661a168366df63ddd2dcebfd5a16ccbc5c441c1d985dd4528e1bcb1d57",
    "1c3d0cf00922cbc5633c0ec82490bf2f4f534496ddae9b5ee3037ded70940f052aa7a5d3c16eb88dca88517196190091",
    "3f76ee5beeeb99c6bbc8aac64fec0ec4e3b5e04fbc03feab4aeceba86ba32270e42fc3fd47c923a4104cfdfa3c844a76",
    "06fb07e1b07b6ed33a5df15a41a07fe381ae970210c4bf591a6e96220df0691bfd1a087428b7b863522f3be7c66b4e43",
    "11a02fe0b5fa491ba6dad4ab5b3b3ac05a64d784889a4bf65ac8319a15634a590dcca4011758bcf94425be80d65e7f4b",
    "7d18bc373f5307f93ff8bcea19c2f7f86ade7965223023323e6c25e5f03182d2e7f7c82079c91241d26c4cb3f73eaa47",
    "316761bbf03570ec09168b5548bc58610bac58c9d6716656be5f284af44c60ef31cb4642bd4d337f06210a95a8bbe9ab",
    "fe31dec4c576043aaadf1876a51abe2dd4d356a863b002c3dea5a78661a30f44b5856aeff35cef1aa76465dd1be94173",
    "1dfd3a3401e4633087b6176145a865dc8eeb9a56000e301cb605233c5d5d7d5f80880992811bdc0a5715a7c06d087246",
    "87b0789251ed91ade4c941924d1319e9995e44fdc8c21eb772f9e82e5c63b38b5121ca7e8b6897eb79cef281ee4138bd",
    "66845d0444d0c7e0b0dcc960a037523a19867e5365c22b1186e30a298df80ba16e16979d237a643319f4d5431ebe76bd",
    "9071fa48ed00a6478163fb932140391dc66f80d0b9074161d525c1b838e0006ee6e65b9574cb360b2c94d543f72520c3",
    "f34390c6b8d827634e1bf5a2fb6be96c5c01a16ff66c8b444f0fe415f6359d0edd0a9d86a5b85800f855ae4e75dc4b4c",
    "0b331e5df5de9b9d7754f79e9c28a814f5a5f186f4026ea7f82b3e025d43102dcb3638cb6181123b35a7bf2d4aac69f5",
    "73e4f05f8a5591c80275408c399c116c46344d26225ef628927edcf5ebe038f6401c39546d62ad37f78b0443cbb72046",
    "965e69af468512a403929366743ae5d44b2f115682f4f221193effb75597403ff54a28d2b0860ed90ab1a5dbb813cb84",
    "2480d4ff02cbcf224830d0683c3c7642eb39196e76fd6b400f7419e945fd3ee6f07d4393c9fb3a0cc6fa2fd2321e72e6",
    "8e5208a20a4c47e830f2b8c06e49a6fcc54ffd983ad2a83dc9933a40c1f140fc4d19dbac87c8091a5a13b16e87335105",
    "4a3e8384e976227b90780891261a5a71ca510d2568c31393903e72fd6abbd655c894038fc0710f6be02cc44cccd6b4b8",
    "5d377e16d30fda8cf2cc12d87a8bb82f80fccc37f40e000726824a4c79b9035be5e7aea2799aae913535c703ed558586",
    "964a7e4530a886cb308f525d200029c8d7ad33df2500286557ca4a7f94c20e1117e6f86d154d4c23f7dde8897753a9bc",
    "d22ef8853c5d8482361b72929d594c1253ae8c10cb0b9b50f8eb8747f072bf87d755df2f6a14d488ac5fb2566958c7cc",
    "a31b055d45a0d73f7b48ee8fd724511d4b12eb172a7aa598c7899ce669ff44a21dc96c1dbc3522138d7462dc26ef9869",
    "b89f85a053bc168cd87def8058fecf827790c28817dbf4cfcc98a100263cab145894dd59e1af44c6cb18a7ec4e21f2e0",
    "998c03d82079bc19097de46ef2a6eee405fad11780d4fb1d361fd54911e1edeb8960261ac32dc2a675e425a90629b7d3",
    "fd14747c0ddc9bf5f4d3805f3ff8a8c039385857748cb5df1794c796f0b9feb6902038ca582a91bf76d874bf08990069",
    "289e49bd5d5c59145d1195bf5c03375e0449b9cf29e86f67c7062dc44e08b5e332e537b79fdd7dc4fec83e7b80a62d1b",
    "046be40695f8f1afa46328a6a227766ea9039828fe47be146146895e84278c20c9565be81b88717a91db9da8fd51b4fb",
    "4379d1b5e18a4cc6d0047a061dbe44c7f69a46f9727eb3232c0810f42b5f1b584b07abfd3878be0288cfb41e6ba3a755",
    "43c36a52992ed763fc976fa763ae0b5ffa4150d5d0c221dead0b2ab526cdcdf3b1dee3c56064907f5a9846c11c085d31",
    "f7c3b9ed1e63e903fc13369916eba58159ac6efd14174bc603943a1075427753e28d47a8b7d9f408819302e3456df7f8",
    "c71efa368b95f092a312a667bd1bf113d3dc811da0aac5591deaf29d2a0a0396d069ca93528e61f9aaae9e8163778876",
    "5869cffd225b8a679ddb1355d9fa1c6a098b0409f1c8bd5338d56597843f697809458aca7f619aea1e784b1f8ad6e051",
    "4b740dde2d40fab30edbb63b2e80ca4a555fb54299b22d29b39d3c13cdf50de387e701d87c27efa4754b6569287d992f",
    "fb42d3ecd77bbe2b69848fdc604f2ca65029109f68316b262c0e2a4178662ead92644d51d49d3f36271fab707718aac9",
    "08b6b6c77797c4290984fc4b93173a166ca46161fafcaf3666a39273c5d7183d43fe66ee4f1b24b77c48b05b383f0289",
    "8a79270132a042ed2c5f0bdb241756149a6f07dac68ca76af5af0eee6bc54baa7fb641fd072fd5a3f8872df706b12163",
    "3e1d57f14ae8e87e0a9811732835f93de6ff1e8c28b2825bc0974c1899e4bc14c18525a32cfdd494dd0466a10bd5952b",
    "ea4e2982e62651df4b5ae33d6a953af600eea8bdaf21220d7447552aa5f89b6e09b042581e601c75722ab78df9365348",
    "f6df16039beb673d1183788b30bf3b093d9799456857a16df50c07adf2059ad6bee4d4f7263494e3402f82079bb8cf40",
    "1e1ff424adb14df90cefb97f84b96eeecb740dd26ced724ef470ae2a9e2f78854ef6294a019a7c29a9f7152e0f373179",
    "c0c5a3d02dcd269f5c508390e0953253a945d969a50d5a26e08c555693c2b6001cc28e1b6ce5c46949c2f856ea002c58",
    "a9c15ad59c848bc9a04512b87f66860166b66c98d97c8c3259c3ad921b1e0fee6aae59b2fb122dc8970411a5372d1166",
    "e646253afbd9997db4a941839e82cc8dddb2c9d78c179e0567e651947579b694e3322e7f76476813f08fff6a0bde9926",
    "6f4568ba51afd5d7eae7b688361124b0c677850933b2ee07be03802b910d081045482a79a04eee4f8bcef3734e20ea9e",
    "2142e7ab21686fa0e63f01aa63805982db023d54e8c1930b5276bf71140a24cf955d012a4956e3614b5a4e8acbdf56ae",
    "a19d2ea210cfb447a324a1638b8890891a3f2ba49d16c95dba951d4b2f959d40cdb8f3c5eebb1c4d0e53d038b4aadeff",
    "efd959a4ce01f2dbfea2830ba5eb07da1c8939468a9939f3c758da6b27f0560354fd934b00e45aed20c472349e5017a1",
    "3883081c3ff373e9d6d6ade1738305e8f96e227a36c5ff8ea503048c005575ac092ad319e5546c33aa6d34e8ea3e99e4",
    "19f1cb544b9c612c6ee771a4bef2d63c053761f0c05fcd2c17b6dfe9dbc257db044660daf49e21a84d40ba18024b50a6",
    "942ce6ef62ab99ea3847c53db737fb69de103ee754a7f489f7628857eea8272cfba1fd224022e86529c6ba946bd486a8",
    "2af2885e4b612df7296f399352effe5d240f6be62faf7e7d49de5826df06e42dd8a1f3921291d48de18a775becc42a77",
    "3b1734d70dac42fa70e887645ee34bd9a5408f14d1fe355ecef1efbc54ffbffcbe95ba6dcb2e6bf6cb6efda89f41f700",
    "4d7a94f33cfc1eae026df47341bc1721f4f6c10be12869dc7be31267da28513a4c989bd3adef37f4457995b66fea360f",
    "c9faadd01da052b8ff8a53fba515751d267a7711533c4c8c7c0c9618378fbef344a10a10df57fe9fbdb1976b23a8936a",
    "6702d084226e429ccdab92b30de14db494307c7f6fc4c22e95ee63e35f76faf43db31aa8ba39141a9e1618e4f8487838",
    "17a12964220858c9c6a8d2f31b37ea79bf022640a5cd614f708a4b0283ff83ea0fd11583765ef5f78487f28340041a32",
    "5876fffe6a4cd900f7825edaa1b345092c6484ca1081c1331de5cc6e58667ecabedda0ac29c13d3343a7142ae1294597",
    "bb980129f85fd88e5e7340fc0723b4561a50651e3ed4ff981fd8ac2fab62e81139abd31116220b4780cfadd7e4b41328",
    "a4f2ad2aa99a9d9661e6e8e5b28abeefdd596e826fab9c489dae527ee95677c395d2b15fb9345824a6f5651f6adf2300",
    "03a31381417b7d3452936354601ff93454eb21452e14221b7dc11c2ebbaaa75581694c25d4e37991fbcf560812074367",
    "ce71db506b44a581ef7a198be1dce05aa29811c5ea847f8df5e4532802317ba33c68ba0e8aff70a37f90dbc91d9391d1",
    "f5505f08642e9aa841945304397c3e3f8f3a5d2d3f4275c4d19f9f9974a31ddde102884d8e9ab6180da08ee10eb2bf0c",
    "a791291810fad7a146e0856b14f260bcdb1c803065961323ab3b45425d16e4303a1180dfacd1ca755e02c8eceaad1c5b",
    "4b8f4449458121ca0a239d96b047809811e7d4ed91bd3839d3e2fea3c35bda6eb6588ac139fc60059fa24a759475ec80",
    "a5740a176f9e3c68eea76061bac039bbd54dcadca4f75bf7706e2537e063b65bbf6bec836c833c8791b1b11a63b81601",
    "415c2eed29c132b0cb14be8246f8e31849ecf0a3fdc8ed6195d2c54e77d7e7506fbb9ed3900ba979c85a06f1dbd1b7a8",
    "b20eeec5bdd8660a57c2e429b10766e9d9c74103702b32052a1c8ec59e44b0cd15127d597656123a3230b29b21abede9",
    "5b402c0b91e1e6b9d7d1e1567dfaff9c689a4064a0d18db83b6a8297060496b20f26dbb6bf7abdff2d28113a0c440b60",
    "84d59d68cf9b8a1f4609b926acb4c5bb3b6f32b49113b6d7b136c396f2990f9914e6233b904d3fd454cb74e68ee2bfd9",
    "e4e0c8f8b46b56474057576b39579a566d3c80611cf56d611605e02ab943ff21bf9764945a7acd3ac9e4361c5b63d0bf",
    "068159bbf57f2d43b72388f0207327d7da1fd22b69f5534869e846ffd037799735f9aa4ea1a4c56704aa085d67185a7b",
    "3f122f7fbe0abe9dd7948ca8b2def018adc08a90b94fee4b0712286043c830fbd67c4ef41788fb46b5c95c06b3b4ac7b",
    "b5f09c0de9f5f1692d34d958208a6869d4c547410a1aafb7753921bef61c7ab404e3d08c042cce528b3c5924f0c39df7",
    "954ca2865284997fcf0371815561c6ed4727b497af6bcf9826a34842c627e48a1f6b8c6a72d9d37ac36ddb8d37ca1c40",
    "ecf97dd083c685de27d7721992d48f0248d08a59b9b01eb467931aeefc89e431bcb41de483a9a54526d4d9dc36f59238",
    "b85e1e6ae65c37e1559c9a54a54289d7212a3a1414bd3f922a37584d1af5f82e4461704855d9140ca861ecf51077943a",
    "ad47e757e3ce02845458d609a30e8b6cd210c479da8b2707d83c7e28dc114f307edb0ad357bca75383d479f462ddfa4e",
    "489710752c0868d143c3a7f045e3768b74169da5b5562a9e2248269ae4fef4f3cd99b6f55ebcc886bfc5d1045c0eec0e",
    "1f21e6cf6a31445bb49d7e3fb22936ffde300633e9592aa8e031b75c182c7c38c27016349232aac91652e6084ecee9c8",
    "1932d7333f900948a3a775e046be30cca1c2f6a3fe6717d4a7d8e28831eb6d8504a132638f3de5f6a21642970ab87431",
    "773327a1910d7fc100ec0e675cc14752e164140dc762662ce60296bf37f39f5db54d653ac3e278cce2ebcdc63f5e9c08",
    "327805ddf61d16933dfa0db07474ffbe51448589651922842e854b65c412f705f2856d0c9794f034af45c4a594003057",
    "72643b8edaaa32e85f884dd3d4196304608d97b353b50d7318810a1de950711e023f7a308119b2dc0c8034f096a5a8d3",
    "d2199a761765bd3b00add935713fc98528374d08a0fb6eb0d26fa244cc04287543a20423c0ac8a6c9063f01feb753138",
    "ebd675e17c86a362bbe773bc35bb6bc0131f135244e8c7e440d97c7abb730d34915642249a4ca57b4ba9cf14137dd555",
    "2dade2754d8dd66523aa0127cc97359328646f22c4c8458eea7c23077cd6a3f560c4ce9c87f2973e09fcaaae375fcec3",
    "7d1eea47bdbc2ad0c94d4f990b434b6b7de407483ce4866a8bd84c11dd055591",
];

/// The SLH-DSA-SHAKE-128s public-key root of the seeds of [seeds].
const ROOT_SHAKE_128S_HEX: &str = "89aee022c9fda3b5ded822088d9f55d3";

/// The SLH-DSA-SHAKE-128f public-key root of the seeds of [seeds].
const ROOT_SHAKE_128F_HEX: &str = "0ab178c1511f5782f43237f0a39a177d";

fn hex(s: &str) -> Vec<u8> {
    assert!(s.len() % 2 == 0, "hex string must have even length");
    return (0..s.len() / 2)
        .map(|i| u8::from_str_radix(&s[2 * i..2 * i + 2], 16).expect("valid hex"))
        .collect();
}

/// The fixed seeds `SK.seed`, `SK.prf`, `PK.seed` of the reference keys.
fn seeds() -> ([u8; N], [u8; N], [u8; N]) {
    let sk_seed: [u8; N] = core::array::from_fn(|i| (0x51 + 3 * i) as u8);
    let sk_prf: [u8; N] = core::array::from_fn(|i| (0x20 + 7 * i) as u8);
    let pk_seed: [u8; N] = core::array::from_fn(|i| (0xA0 ^ (5 * i)) as u8);
    return (sk_seed, sk_prf, pk_seed);
}

/// The internal message `M'` for the pure external interface with empty context.
fn internal_msg() -> Vec<u8> {
    return [&[0u8, 0u8], MSG].concat();
}

fn reference<P: ParameterSet>() -> Reference {
    let (sk_seed, sk_prf, pk_seed) = seeds();
    let sk = SigningKey::<P>::slh_keygen_internal(&sk_seed, &sk_prf, &pk_seed);
    let sk_bytes = sk.to_bytes();
    let sig = sk.try_sign_with_context(MSG, &[], None).unwrap();
    return Reference {
        sk_seed: sk_bytes[..N].try_into().unwrap(),
        pk_seed: sk_bytes[2 * N..3 * N].try_into().unwrap(),
        pk_root: sk_bytes[3 * N..4 * N].try_into().unwrap(),
        sig: sig.to_bytes().as_slice().to_vec(),
    };
}

/// The SLH-DSA-SHAKE-128s reference: signing at 128s is too slow for a debug-build test, so the
/// signature is the stored one, which the reference implementation's verifier must accept.
fn reference_shake_128s() -> Reference {
    let (sk_seed, _, pk_seed) = seeds();
    let pk_root: [u8; N] = hex(ROOT_SHAKE_128S_HEX).try_into().unwrap();
    let sig = hex(&SIG_SHAKE_128S_HEX.concat());
    let vk_bytes = [pk_seed.as_slice(), pk_root.as_slice()].concat();
    let vk = VerifyingKey::<Shake128s>::try_from(vk_bytes.as_slice()).unwrap();
    let reference_sig = Signature::<Shake128s>::try_from(sig.as_slice()).unwrap();
    assert!(vk.slh_verify_internal(&internal_msg(), &reference_sig).is_ok());
    return Reference {
        sk_seed,
        pk_seed,
        pk_root,
        sig,
    };
}

fn check_keygen<P: ParameterSet>(params: &SlhDsaParams) {
    let reference = reference::<P>();
    let out = slh_keygen_root(reference.sk_seed, &reference.pk_seed, params);
    assert_eq!(out.to_vec(), reference.pk_root.to_vec());
}

fn check_verify<P: ParameterSet>(params: &SlhDsaParams) {
    let reference = reference::<P>();
    assert_eq!(reference.sig.len(), params.sig_len());
    let out = slh_verify_root(
        internal_msg(),
        reference.sig,
        &reference.pk_seed,
        &reference.pk_root,
        params,
    );
    assert_eq!(out.to_vec(), reference.pk_root.to_vec());
}

#[test]
fn test_keygen_128f() {
    check_keygen::<Shake128f>(&slh_dsa_shake_128f());
}

#[test]
fn test_verify_128s() {
    let reference = reference_shake_128s();
    let params = slh_dsa_shake_128s();
    assert_eq!(reference.sig.len(), params.sig_len());
    let out = slh_verify_root(
        internal_msg(),
        reference.sig,
        &reference.pk_seed,
        &reference.pk_root,
        &params,
    );
    assert_eq!(out.to_vec(), reference.pk_root.to_vec());
}

#[test]
fn test_verify_128f() {
    check_verify::<Shake128f>(&slh_dsa_shake_128f());
}

#[test]
fn test_keygen_sha2_128f() {
    check_keygen::<Sha2_128f>(&slh_dsa_sha2_128f());
}

#[test]
fn test_verify_sha2_128s() {
    check_verify::<Sha2_128s>(&slh_dsa_sha2_128s());
}

#[test]
fn test_verify_sha2_128f() {
    check_verify::<Sha2_128f>(&slh_dsa_sha2_128f());
}

#[test]
fn test_verify_128s_rejects_tampered_signature() {
    let reference = reference_shake_128s();
    let mut sig = reference.sig;
    sig[N] ^= 0x01;
    let out = slh_verify_root(
        internal_msg(),
        sig,
        &reference.pk_seed,
        &reference.pk_root,
        &slh_dsa_shake_128s(),
    );
    assert_ne!(out.to_vec(), reference.pk_root.to_vec());
}

#[test]
fn test_verify_128s_rejects_wrong_message() {
    let reference = reference_shake_128s();
    let out = slh_verify_root(
        [&[0u8, 0u8], b"a different message".as_slice()].concat(),
        reference.sig,
        &reference.pk_seed,
        &reference.pk_root,
        &slh_dsa_shake_128s(),
    );
    assert_ne!(out.to_vec(), reference.pk_root.to_vec());
}

#[test]
fn test_stored_shake_roots_match_reference_keygen() {
    let reference = reference::<Shake128f>();
    assert_eq!(reference.pk_root.to_vec(), hex(ROOT_SHAKE_128F_HEX));
    let (sk_seed, _, pk_seed) = seeds();
    let out = slh_keygen_root(sk_seed, &pk_seed, &slh_dsa_shake_128f());
    assert_eq!(out.to_vec(), hex(ROOT_SHAKE_128F_HEX));
}

