use pki::chain::{check_validity, decode_x509_entry, judge, verify_certificate_chain};
use pki::error::TlsError;
use pki::handshake::{Certificate, CertificateEntryRef, ServerCertificate};

const CA: &str = "\
    308201503081f7a003020102020203e9300a06082a8648ce3d04030230273110300e060355040a0c0745\
    78616d706c653113301106035504030c0a4578616d706c65204341301e170d3234303130313030303030\
    305a170d3334303130313030303030305a30273110300e060355040a0c074578616d706c653113301106\
    035504030c0a4578616d706c652043413059301306072a8648ce3d020106082a8648ce3d030107034200\
    044102ecb299516426d17f79188946cc8b1ba3913186d96987598d65c4b811b7b3e8874d0470c5a627e0\
    643dc867a15e50bc7fa615eba9bae510cf780b0d3fa371a3133011300f0603551d130101ff0405300301\
    01ff300a06082a8648ce3d0403020348003045022100eafbbf8298f044b3579f4ade75758bddce33480f\
    e9d3d6af29657ef46a76cc3a022076f42e36cb409fe55454f0fb3d60d7dc25fa556b1e4cdb9ff0209650\
    8724ad04";

const INTERMEDIATE: &str = "\
    3082015b30820101a003020102020203ea300a06082a8648ce3d04030230273110300e060355040a0c07\
    4578616d706c653113301106035504030c0a4578616d706c65204341301e170d32343031303130303030\
    30305a170d3334303130313030303030305a30313110300e060355040a0c074578616d706c65311d301b\
    06035504030c144578616d706c6520496e7465726d6564696174653059301306072a8648ce3d02010608\
    2a8648ce3d03010703420004a55078e0d046f8f02db934b091122ec14113dfe4651215707c3de66cf8f0\
    121c128adb5d0c9ddeb43d320a51571ab9566c176928003bd04df1040ced1c6cf671a3133011300f0603\
    551d130101ff040530030101ff300a06082a8648ce3d04030203480030450221008feb6083e218858ebd\
    18c772ccfb401e2e5485e1c7ace325d69f5bbb71f4304d02204ba05f380ec111b7162700b83342e7686c\
    562b27b6cf5083bb10ac2ff98fff89";

const SERVER: &str = "\
    308201843082012aa003020102020203eb300a06082a8648ce3d04030230313110300e060355040a0c07\
    4578616d706c65311d301b06035504030c144578616d706c6520496e7465726d656469617465301e170d\
    3234303130313030303030305a170d3334303130313030303030305a302f3110300e060355040a0c0745\
    78616d706c65311b301906035504030c127365727665722e6578616d706c652e636f6d3059301306072a\
    8648ce3d020106082a8648ce3d03010703420004ccd1baa0d8ffb97e26311430c2f42c66be6c0786f707\
    595a55ebe7543552bddd33b855815982dc1e447761f9c9e10a1ed8a6e107cd441c41b1bdc91f43c96e28\
    a334303230300603551d110429302782127365727665722e6578616d706c652e636f6d82112a2e617069\
    2e6578616d706c652e636f6d300a06082a8648ce3d0403020348003045022100e832acc0f5c868247024\
    4b7bc2aca527bff698fda2e46ef3706c9457b301a5930220670280a3648374f5049c44bb9c509a39c19d\
    f7c063e9e00a1980a3f85976c297";

const ALT_ROOT: &str = "\
    3082014f3081f7a003020102020203ec300a06082a8648ce3d04030230273110300e060355040a0c0745\
    78616d706c653113301106035504030c0a4f7468657220526f6f74301e170d3234303130313030303030\
    305a170d3334303130313030303030305a30273110300e060355040a0c074578616d706c653113301106\
    035504030c0a4f7468657220526f6f743059301306072a8648ce3d020106082a8648ce3d030107034200\
    046de6d74de6054beba53185102193a614d439bddb150eda80cf319c8a53d028932af7f742ad9f31b20a\
    a5642026962b7defbd174d56f3a0330d4d0df2a219d674a3133011300f0603551d130101ff0405300301\
    01ff300a06082a8648ce3d040302034700304402205c1d0a4fbebf9c11f9b65ec5086e2681ac07917d86\
    40f9f5f07ee199ac91491702205e01386289211c2ca881a175c18a3292ec6caff5d810758e5d83fc5ffd\
    2b4abe";

const CROSS_SIGNED: &str = "\
    308201503081f7a003020102020203ed300a06082a8648ce3d04030230273110300e060355040a0c0745\
    78616d706c653113301106035504030c0a4f7468657220526f6f74301e170d3234303130313030303030\
    305a170d3334303130313030303030305a30273110300e060355040a0c074578616d706c653113301106\
    035504030c0a4578616d706c652043413059301306072a8648ce3d020106082a8648ce3d030107034200\
    044102ecb299516426d17f79188946cc8b1ba3913186d96987598d65c4b811b7b3e8874d0470c5a627e0\
    643dc867a15e50bc7fa615eba9bae510cf780b0d3fa371a3133011300f0603551d130101ff0405300301\
    01ff300a06082a8648ce3d040302034800304502200a2a1b2bd34bbf669283b0ca94a061a82a6c8f34a7\
    9e50551ee40b1417491ebe022100edc527217ba0d94dcea54e0d810e5017a38bdf6f0e22ab151b79d4ac\
    a2ed9794";

const EXPIRED: &str = "\
    308201423081eaa003020102020203ee300a06082a8648ce3d04030230273110300e060355040a0c0745\
    78616d706c653113301106035504030c0a4578616d706c65204341301e170d3230303130313030303030\
    305a170d3231303130313030303030305a302f3110300e060355040a0c074578616d706c65311b301906\
    035504030c127365727665722e6578616d706c652e636f6d3059301306072a8648ce3d020106082a8648\
    ce3d03010703420004ccd1baa0d8ffb97e26311430c2f42c66be6c0786f707595a55ebe7543552bddd33\
    b855815982dc1e447761f9c9e10a1ed8a6e107cd441c41b1bdc91f43c96e28300a06082a8648ce3d0403\
    02034700304402202fb30bc61128be6f6449300c74db2eb485689f79dd2067a7853b27cc6e6a22490220\
    76c102fbd3c1ee88f5e9a39c3166633207d916c8a8f82df0eac38062df609c06";

const EXPIRED_INTERMEDIATE: &str = "\
    3082015b30820101a003020102020203f3300a06082a8648ce3d04030230273110300e060355040a0c07\
    4578616d706c653113301106035504030c0a4578616d706c65204341301e170d32303031303130303030\
    30305a170d3231303130313030303030305a30313110300e060355040a0c074578616d706c65311d301b\
    06035504030c144578616d706c6520496e7465726d6564696174653059301306072a8648ce3d02010608\
    2a8648ce3d03010703420004a55078e0d046f8f02db934b091122ec14113dfe4651215707c3de66cf8f0\
    121c128adb5d0c9ddeb43d320a51571ab9566c176928003bd04df1040ced1c6cf671a3133011300f0603\
    551d130101ff040530030101ff300a06082a8648ce3d0403020348003045022100ff6a4d232f73c57acd\
    082098ae3a253ce9aa1ce3db53cc41a3e3779beba9f7f802206aecc91897d9187954c4d6386b5dd17681\
    aa44fb9ab84bd3cf8854e25db81c39";

const LONG_LIVED: &str = "\
    308201413081e8a003020102020203ef300a06082a8648ce3d04030230273110300e060355040a0c0745\
    78616d706c653113301106035504030c0a4578616d706c652043413020170d3234303130313030303030\
    305a180f32303630303232393132333031355a302b3110300e060355040a0c074578616d706c65311730\
    1506035504030c0e636e2e6578616d706c652e636f6d3059301306072a8648ce3d020106082a8648ce3d\
    03010703420004ccd1baa0d8ffb97e26311430c2f42c66be6c0786f707595a55ebe7543552bddd33b855\
    815982dc1e447761f9c9e10a1ed8a6e107cd441c41b1bdc91f43c96e28300a06082a8648ce3d04030203\
    48003045022100f88449e11ea76db7924ebef5a9d213ff3b46d606402dffd5ded8ad1a0a2ba738022069\
    0b578b5db8f237b83b9d2dea0315e98b681bbb2ec103815984c248f6e42bd5";

const NAMELESS: &str = "\
    308201263081cda003020102020203f0300a06082a8648ce3d04030230273110300e060355040a0c0745\
    78616d706c653113301106035504030c0a4578616d706c65204341301e170d3234303130313030303030\
    305a170d3334303130313030303030305a30123110300e060355040a0c074578616d706c653059301306\
    072a8648ce3d020106082a8648ce3d03010703420004ccd1baa0d8ffb97e26311430c2f42c66be6c0786\
    f707595a55ebe7543552bddd33b855815982dc1e447761f9c9e10a1ed8a6e107cd441c41b1bdc91f43c9\
    6e28300a06082a8648ce3d04030203480030450220262de308ffc77834c4dd9d6aff7afadb7fa7079dce\
    79bda1a82f81a1aa0766cb022100b92f6d42a8813705ab8ee05b5cf77c345a5f1db59cfaccbbca071200\
    655b95c1";

const LONG_SAN: &str = "\
    3082019c30820143a003020102020203f1300a06082a8648ce3d04030230273110300e060355040a0c07\
    4578616d706c653113301106035504030c0a4578616d706c65204341301e170d32343031303130303030\
    30305a170d3334303130313030303030305a302f3110300e060355040a0c074578616d706c65311b3019\
    06035504030c127365727665722e6578616d706c652e636f6d3059301306072a8648ce3d020106082a86\
    48ce3d03010703420004ccd1baa0d8ffb97e26311430c2f42c66be6c0786f707595a55ebe7543552bddd\
    33b855815982dc1e447761f9c9e10a1ed8a6e107cd441c41b1bdc91f43c96e28a357305530530603551d\
    11044c304a82486161616161616161616161616161616161616161616161616161616161616161616161\
    616161616161616161616161616161616161616161616161612e6578616d706c652e636f6d300a06082a\
    8648ce3d0403020347003044022071649da68ecbc9f120e84af4151d714b81f50203bc8890ae731a4d78\
    9a37d437022057ba044ba79ed9741fd16ff8d1e463ee4561115938b37f5285ae374382ba7fcf";

const MANY_SANS: &str = "\
    3082029c30820244a003020102020203f2300a06082a8648ce3d04030230273110300e060355040a0c07\
    4578616d706c653113301106035504030c0a4578616d706c65204341301e170d32343031303130303030\
    30305a170d3334303130313030303030305a302f3110300e060355040a0c074578616d706c65311b3019\
    06035504030c127365727665722e6578616d706c652e636f6d3059301306072a8648ce3d020106082a86\
    48ce3d03010703420004ccd1baa0d8ffb97e26311430c2f42c66be6c0786f707595a55ebe7543552bddd\
    33b855815982dc1e447761f9c9e10a1ed8a6e107cd441c41b1bdc91f43c96e28a3820156308201523082\
    014e0603551d110482014530820141810d61406578616d706c652e636f6d820f6830302e6578616d706c\
    652e636f6d820f6830312e6578616d706c652e636f6d820f6830322e6578616d706c652e636f6d820f68\
    30332e6578616d706c652e636f6d820f6830342e6578616d706c652e636f6d820f6830352e6578616d70\
    6c652e636f6d820f6830362e6578616d706c652e636f6d820f6830372e6578616d706c652e636f6d820f\
    6830382e6578616d706c652e636f6d820f6830392e6578616d706c652e636f6d820f6831302e6578616d\
    706c652e636f6d820f6831312e6578616d706c652e636f6d820f6831322e6578616d706c652e636f6d82\
    0f6831332e6578616d706c652e636f6d820f6831342e6578616d706c652e636f6d820f6831352e657861\
    6d706c652e636f6d820f6831362e6578616d706c652e636f6d820f6831372e6578616d706c652e636f6d\
    300a06082a8648ce3d0403020346003043021f06e83a14f9d3bbf79c27f3355452fe03899574cbc3896a\
    e462f3dba84529e902201e7a9c6d23826c86e8cfe69cb56b5e4e76841f06362fe0e138328fe85f166b77";

const CA_P384: &str = "\
    3082018a30820110a003020102020203f4300a06082a8648ce3d04030330253110300e060355040a0c07\
    4578616d706c653111300f06035504030c08502d333834204341301e170d323430313031303030303030\
    5a170d3334303130313030303030305a30253110300e060355040a0c074578616d706c653111300f0603\
    5504030c08502d3338342043413076301006072a8648ce3d020106052b81040022036200046991c4d341\
    af40e395db277815ac9ee2966500fa9006f76249bf10ce397a4532b49becaa4d01cfc16d31cef17b3e30\
    f296e7b07b14d870c01f78c61e6b4b700314692fb0a2f4bfa4b6813e86fb842aae6cf12dee5b05fb52b0\
    623e38520c8206a3133011300f0603551d130101ff040530030101ff300a06082a8648ce3d0403030368\
    00306502310084c9fbcdae9452a5ee9d297658ca5e2e5345d8f3ef448ab37e8e2507348f88958767bb08\
    b896d5ebe64dc2743ce99810023016e8670225679930ee2cfcecdffdca1eae38ff5366ca29e6007a25c9\
    a895c1b125f40debbfb5d8ba42118cfb7b9e53c8";

const SERVER_P384: &str = "\
    3082018030820105a003020102020203f5300a06082a8648ce3d04030330253110300e060355040a0c07\
    4578616d706c653111300f06035504030c08502d333834204341301e170d323430313031303030303030\
    5a170d3334303130313030303030305a302f3110300e060355040a0c074578616d706c65311b30190603\
    5504030c127365727665722e6578616d706c652e636f6d3076301006072a8648ce3d020106052b810400\
    220362000495edd9d1ea818a4d4278934bf7fd7c25bfdd83ebaddd4388cf7494e1bda804dc71b1986cd1\
    25e2c877ea8b352cc4777e7baec6b5445d2480e0fb4b8301303946d19858c399d68b0edecf6037098be1\
    d87b57916a430865db44849b9b3dfd897d300a06082a8648ce3d0403030369003066023100c7ad338d65\
    f25d43fa6e63f4152f971ae189ec44edb592126026b7024f096cc1521282d095d233e22a151cd32e097f\
    7002310087ed61f9e0c493d91ee72beb90fb8ffc2cf6b409d9227bd8c6729adbd16fe9c86910550c5a15\
    d7432be8cc955f0aa062";

const CA_ED25519: &str = "\
    308201103081c3a003020102020203f6300506032b657030273110300e060355040a0c074578616d706c\
    653113301106035504030c0a45643235353139204341301e170d3234303130313030303030305a170d33\
    34303130313030303030305a30273110300e060355040a0c074578616d706c653113301106035504030c\
    0a45643235353139204341302a300506032b65700321006d8205199a0c16f75fe3c0433ec1610740792b\
    d6e176150c745bee339c75c133a3133011300f0603551d130101ff040530030101ff300506032b657003\
    4100df8db002e2d8c3bf83f47e355fb0edc1585d27764e3ad74d49efd25a1a3638b1a7862a192fad59c5\
    453692c536b99c33b660a01dc06470ef18d41219d8c5830a";

const SERVER_ED25519: &str = "\
    308201033081b6a003020102020203f7300506032b657030273110300e060355040a0c074578616d706c\
    653113301106035504030c0a45643235353139204341301e170d3234303130313030303030305a170d33\
    34303130313030303030305a302f3110300e060355040a0c074578616d706c65311b301906035504030c\
    127365727665722e6578616d706c652e636f6d302a300506032b65700321006a41865c4c11f250b1d7b0\
    9beb66aaad12e8a5cbb6dbf8006beb2bf198f3bb57300506032b65700341002eed2f1c8812bde416a59d\
    d8a12946fdd280d92f982266fed697126f9948fa1f982bfd2f6bc225a4e1c12d2921ef5b02c8111de52f\
    2a4cf4e0e115e31025fb02";

const CA_RSA: &str = "\
    308202d5308201bda003020102020203f8300d06092a864886f70d01010b050030233110300e06035504\
    0a0c074578616d706c65310f300d06035504030c06525341204341301e170d3234303130313030303030\
    305a170d3334303130313030303030305a30233110300e060355040a0c074578616d706c65310f300d06\
    035504030c0652534120434130820122300d06092a864886f70d01010105000382010f003082010a0282\
    010100bde2ffb59a0159cdf359a1dddba6340ce4a3f50d4d01ffaf4142355e27cfe0783b0504da74a0b1\
    019668e8142714d4ca3535dcbd5fea301eeb4979f4f4a76aae7e3b0e8c10c90d6d5050b854405edf0451\
    7e3836c17e193d2789185a8ace62a583557ea0d86e9e64134df0ef43bedd56939c1e83c4bd6e46be3130\
    30096aa40c1f65bf34a4bc149641ad8c018220b3c0b2f307fe2bcbf63f0321b2c0e06521251d09516f84\
    f1852a9189fb584425c1b1f7b36cb4456b73dc278f3a0d198ebbb093003708626cf2d8f23477682ca798\
    7c5f3be86ad4837ee070d10cbb476cb234f65536faff2e7623fdef4c235fd42ec612867f4f5d29bbd302\
    1c4e6d7d23246d0203010001a3133011300f0603551d130101ff040530030101ff300d06092a864886f7\
    0d01010b05000382010100b0477df0750ada47063cd86b0f5192078ac8f713cfc4504e5ca3b8df7e8be0\
    3576f3d1fb8b72514695887b7aa3a33debf59c9f9374d5d0ef5c5f6cfc45cb85aab478c9a919fdc46861\
    161113600f14e951e9dbe86531dfddf0eca7f55b6813bf0f8a31702bad018176387f055fe3cb9360a755\
    9311dbdd1ffd80f9a8e6b1b0be2d4dddde5fa4dcfaeda5b69f405960d6c688ae9b46205c61030e59ee55\
    581e38e3d33e9c47095677a46afe4c99260fb808045c4bc42c9af1aa4d22ea86c36d0753536aeef83725\
    5301e479d30352363366498c840b11de85831f4629b2183cbcbbe392110c21fe540d63fc584509d9ba99\
    5e7a8ad1175f585593cb4accd5d645";

const SERVER_RSA_SHA256: &str = "\
    308202cc308201b4a003020102020203f9300d06092a864886f70d01010b050030233110300e06035504\
    0a0c074578616d706c65310f300d06035504030c06525341204341301e170d3234303130313030303030\
    305a170d3334303130313030303030305a302f3110300e060355040a0c074578616d706c65311b301906\
    035504030c127365727665722e6578616d706c652e636f6d30820122300d06092a864886f70d01010105\
    000382010f003082010a0282010100a0042e3ba56a63b3f14422a622e23701b9e2d1c477752fd62eb554\
    734e6ef89961c59561fedf2098a7adf36abd760a0c7c23a22e82c6db2df9568ad1d34481c9cb5d4b392c\
    9c7b555656c68d84e94a3b9094462ae418251510a5cc11fcf65f59f245bebea22f8d3fac2c1c65df6ddf\
    6d209d860d6110b4e4025945b0887029eea87e422bea5b5c4d67d794cc95b7e283878c0aed2e828fe46b\
    9f1cb4c8405b706c0e20a3c479a07bfa85e5ecfa8b0a166c086231b2008d8982930b88fd6d812c8e5e79\
    08ba9728fc489853473bcb603bc7848e18ad2ea4c7cfd728a7e7dced4208223727d1caa0c603bb79437e\
    4fa45c1c357a1bd931414f3e7a7be8ee48031d0203010001300d06092a864886f70d01010b0500038201\
    010058b47c0e8c745565dea160d66a6e4e55b4e11e1c9316d5fa301b6bef3a71c4d12b2965250fefb632\
    9389bc3f0533286fcaa6790d444695555546f05a044d0e72ff7066abc432e5a6128177359827e7abdec3\
    5f21dcc2162cfcfad70075c47759ab416fe6869a67f620820a24ab5f135bfafbcb8fe9102ebf2f6faa2f\
    5fc4cf2beba1e2f6b6e75b417e5451bd5ac86125a921e7e6642627777029afb1dcddcf7c02b9e7c2c153\
    0aa8f59c2d1a17859b8defb236d3ffb6ec3a90e5b51ce4c83413bbbdec38ecc855bc71cc91c0abfa7cf8\
    4000c052c28519758a34456943a28ce0867989c44099a74b615c9d829cd3ba2238712c2b2b87a4523ac8\
    c351aab25bb2";

const SERVER_RSA_SHA384: &str = "\
    308202cc308201b4a003020102020203fa300d06092a864886f70d01010c050030233110300e06035504\
    0a0c074578616d706c65310f300d06035504030c06525341204341301e170d3234303130313030303030\
    305a170d3334303130313030303030305a302f3110300e060355040a0c074578616d706c65311b301906\
    035504030c127365727665722e6578616d706c652e636f6d30820122300d06092a864886f70d01010105\
    000382010f003082010a0282010100a0042e3ba56a63b3f14422a622e23701b9e2d1c477752fd62eb554\
    734e6ef89961c59561fedf2098a7adf36abd760a0c7c23a22e82c6db2df9568ad1d34481c9cb5d4b392c\
    9c7b555656c68d84e94a3b9094462ae418251510a5cc11fcf65f59f245bebea22f8d3fac2c1c65df6ddf\
    6d209d860d6110b4e4025945b0887029eea87e422bea5b5c4d67d794cc95b7e283878c0aed2e828fe46b\
    9f1cb4c8405b706c0e20a3c479a07bfa85e5ecfa8b0a166c086231b2008d8982930b88fd6d812c8e5e79\
    08ba9728fc489853473bcb603bc7848e18ad2ea4c7cfd728a7e7dced4208223727d1caa0c603bb79437e\
    4fa45c1c357a1bd931414f3e7a7be8ee48031d0203010001300d06092a864886f70d01010c0500038201\
    01004ad6b9c48cb462d35b1b5bbd3b3854f3ba42d0d1a3c25c8ed7ee0afac3062276e6fc66d9ccfa2eb0\
    657869af68da09e7716eda3566dd5e411f12a8eb538f056d0fe599602cd4b8f1b7938239a65ef7f18d86\
    2fef1ecf42e91d50b886b5749f19eacaa517d0afba56c930554bbd1a55fa320e7685782e65be9e39d8e0\
    a2e3acac5867415893a6bc4a60e089fd25e89a9f116d00dda4ebfb10ed8708809c3dfb394ebbb3c70038\
    007173bd93f0389b43eb11f0067e905947ece1b469ab28de0ce920dc7972b5486eb4a17e6501f78a1f68\
    cb23985699539fd1d06c85d02d54cb351b517a10d5ce6ad18ccb42da6254c7d93e974516a7cb1344b7ff\
    cea0e36ca899";

const SERVER_RSA_SHA512: &str = "\
    308202cc308201b4a003020102020203fb300d06092a864886f70d01010d050030233110300e06035504\
    0a0c074578616d706c65310f300d06035504030c06525341204341301e170d3234303130313030303030\
    305a170d3334303130313030303030305a302f3110300e060355040a0c074578616d706c65311b301906\
    035504030c127365727665722e6578616d706c652e636f6d30820122300d06092a864886f70d01010105\
    000382010f003082010a0282010100a0042e3ba56a63b3f14422a622e23701b9e2d1c477752fd62eb554\
    734e6ef89961c59561fedf2098a7adf36abd760a0c7c23a22e82c6db2df9568ad1d34481c9cb5d4b392c\
    9c7b555656c68d84e94a3b9094462ae418251510a5cc11fcf65f59f245bebea22f8d3fac2c1c65df6ddf\
    6d209d860d6110b4e4025945b0887029eea87e422bea5b5c4d67d794cc95b7e283878c0aed2e828fe46b\
    9f1cb4c8405b706c0e20a3c479a07bfa85e5ecfa8b0a166c086231b2008d8982930b88fd6d812c8e5e79\
    08ba9728fc489853473bcb603bc7848e18ad2ea4c7cfd728a7e7dced4208223727d1caa0c603bb79437e\
    4fa45c1c357a1bd931414f3e7a7be8ee48031d0203010001300d06092a864886f70d01010d0500038201\
    0100b632e142268a17fba1c06f0182dc570ad6dfdcb3fb019c3dbf90465b2ebba10e355ff48f0c5f6eeb\
    428a91edfc49bdc49e237ba4b2d3fe84f8b7dfe52fd4bc3933bfdc51f35d21f537569061674c4f24de60\
    056c941ce6996df460176628ff065c323642a84a4c24cfb7419f1571651599ebcc96add0001f8e981b8f\
    d4ceb63ba4ddc3ab26b5c0c380e23874d464fdcfcfd733771cc6d72374ea1ede05d476dcd580216f3b3b\
    e893df21e6ed800e6f2630d9db40b47be942c4616860dc74279b24c68cdcc9a36b92a08cddf8b774655c\
    c9fb731486822d1324dc6597f1354815c46f57dbb1e14731af9ddb01cf1f37f4cbc9aaafbf684993d759\
    d814b1c9d727";

const SERVER_RSA_PSS: &str = "\
    30820334308201e8a003020102020203fc304106092a864886f70d01010a3034a00f300d060960864801\
    65030402010500a11c301a06092a864886f70d010108300d06096086480165030402010500a203020120\
    30233110300e060355040a0c074578616d706c65310f300d06035504030c06525341204341301e170d32\
    34303130313030303030305a170d3334303130313030303030305a302f3110300e060355040a0c074578\
    616d706c65311b301906035504030c127365727665722e6578616d706c652e636f6d30820122300d0609\
    2a864886f70d01010105000382010f003082010a0282010100a0042e3ba56a63b3f14422a622e23701b9\
    e2d1c477752fd62eb554734e6ef89961c59561fedf2098a7adf36abd760a0c7c23a22e82c6db2df9568a\
    d1d34481c9cb5d4b392c9c7b555656c68d84e94a3b9094462ae418251510a5cc11fcf65f59f245bebea2\
    2f8d3fac2c1c65df6ddf6d209d860d6110b4e4025945b0887029eea87e422bea5b5c4d67d794cc95b7e2\
    83878c0aed2e828fe46b9f1cb4c8405b706c0e20a3c479a07bfa85e5ecfa8b0a166c086231b2008d8982\
    930b88fd6d812c8e5e7908ba9728fc489853473bcb603bc7848e18ad2ea4c7cfd728a7e7dced42082237\
    27d1caa0c603bb79437e4fa45c1c357a1bd931414f3e7a7be8ee48031d0203010001304106092a864886\
    f70d01010a3034a00f300d06096086480165030402010500a11c301a06092a864886f70d010108300d06\
    096086480165030402010500a2030201200382010100ae10326951b51f3bf6b69c971a7549ef94c9438d\
    0d6bf1c57fcf2783b5f0f9376ffd7d83b89ea21edb4c1b88c3826accfb553eb1c0fd73a14ed3b61fca78\
    21b3c66e1be2ad41add2d4d6edaeae2a12ec5f7d61e5afa8fba3d6611eb5471277278d6360173f85d594\
    cb9bffb72b484d29545fed3ac2aeec4922539618ee459ed61074cea72c5cebef1c932d19f374b6ea3a6f\
    b58cb6b97c26e40ae246ce7cf51fcf6cca030525498d865fe3a48bca4379cc121f0775d540530ec1008f\
    9a5962f7f0e325299f33614c616a5340ada0bd86a740194ac12c4f12f5885482c2aeda38d72755f99d0d\
    55f7b9fe9f1670da8cd27d9f8f8b9a137978b841019641bf2e04";

/// The octets that hexadecimal digits stand for.
fn octets(digits: &str) -> Vec<u8> {
    let mut out: Vec<u8> = Vec::new();
    let mut i = 0;
    while i < digits.len() {
        out.push(u8::from_str_radix(&digits[i..i + 2], 16).unwrap());
        i += 2;
    }
    out
}

/// A time at which all certificates are valid but those that expired.
const NOW: u64 = 1_800_000_000;

fn chain_of<'a>(entries: &[&'a [u8]]) -> ServerCertificate<'a> {
    let mut cert = ServerCertificate::with_context(&[]);
    for der in entries {
        cert.add(CertificateEntryRef::X509(der)).unwrap();
    }
    cert
}

fn outcome(ca: &str, chain: &[&str], now: Option<u64>) -> Result<Vec<String>, TlsError> {
    let ca = octets(ca);
    let chain: Vec<Vec<u8>> = chain.iter().map(|der| octets(der)).collect();
    let entries: Vec<&[u8]> = chain.iter().map(|der| der.as_slice()).collect();
    let names = verify_certificate_chain(
        &Certificate::X509(ca.as_slice()),
        &chain_of(&entries),
        now,
    )?;
    let mut found: Vec<String> = Vec::new();
    if let Some(name) = &names.common_name {
        found.push(String::from(name.as_str()));
    }
    for name in &names.san_dns_names {
        found.push(String::from(name.as_str()));
    }
    Ok(found)
}

// `decoy` has the key of `ca` and is signed by another issuer, which is not trusted.
// The walk stops at `intermediate`, which `ca` signed, and never comes to `decoy`.
#[test]
fn chain_with_trailing_cross_signed_cert_succeeds() {
    let leaf = octets(SERVER);
    let intermediate = octets(INTERMEDIATE);
    let decoy = octets(CROSS_SIGNED);
    let ca = octets(CA);

    let cert = chain_of(&[leaf.as_slice(), intermediate.as_slice(), decoy.as_slice()]);
    let result = verify_certificate_chain(&Certificate::X509(ca.as_slice()), &cert, None);
    assert!(result.is_ok(), "{:?}", result.err());
}

// `alt_root` signed none of the certificates that are sent, so the walk comes to the
// end of the chain and fails.
#[test]
fn chain_without_trust_anchor_match_fails() {
    let leaf = octets(SERVER);
    let intermediate = octets(INTERMEDIATE);
    let alt_root = octets(ALT_ROOT);

    let cert = chain_of(&[leaf.as_slice(), intermediate.as_slice()]);
    let result = verify_certificate_chain(&Certificate::X509(alt_root.as_slice()), &cert, None);
    assert!(matches!(result, Err(TlsError::InvalidCertificate)));
}

#[test]
fn two_cert_chain_still_works() {
    let leaf = octets(SERVER);
    let intermediate = octets(INTERMEDIATE);
    let ca = octets(CA);

    let cert = chain_of(&[leaf.as_slice(), intermediate.as_slice()]);
    let result = verify_certificate_chain(&Certificate::X509(ca.as_slice()), &cert, None);
    assert!(result.is_ok(), "{:?}", result.err());
}

#[test]
fn the_names_are_those_of_the_first_certificate() {
    assert_eq!(
        outcome(CA, &[SERVER, INTERMEDIATE], Some(NOW)),
        Ok(vec![
            String::from("server.example.com"),
            String::from("server.example.com"),
            String::from("*.api.example.com"),
        ])
    );
    assert_eq!(
        outcome(CA, &[LONG_LIVED], Some(NOW)),
        Ok(vec![String::from("cn.example.com")])
    );
    assert_eq!(outcome(CA, &[NAMELESS], Some(NOW)), Ok(vec![]));
}

#[test]
fn an_intermediate_can_be_the_anchor() {
    assert!(outcome(INTERMEDIATE, &[SERVER], Some(NOW)).is_ok());
    assert!(outcome(CA, &[INTERMEDIATE], Some(NOW)).is_ok());
}

#[test]
fn a_cross_signed_anchor_is_reached_through_the_cross_certificate() {
    assert!(outcome(ALT_ROOT, &[SERVER, INTERMEDIATE, CROSS_SIGNED], Some(NOW)).is_ok());
    assert!(outcome(CROSS_SIGNED, &[SERVER, INTERMEDIATE], Some(NOW)).is_ok());
}

#[test]
fn an_empty_chain_is_refused() {
    assert_eq!(outcome(CA, &[], Some(NOW)), Err(TlsError::InvalidCertificate));
}

#[test]
fn a_gap_in_the_chain_is_refused() {
    assert_eq!(outcome(CA, &[SERVER], Some(NOW)), Err(TlsError::InvalidCertificate));
    assert_eq!(
        outcome(CA, &[SERVER, ALT_ROOT, INTERMEDIATE], Some(NOW)),
        Err(TlsError::InvalidCertificate)
    );
}

#[test]
fn whatever_follows_a_trusted_chain_is_ignored() {
    let garbage = "00";
    assert!(outcome(CA, &[SERVER, INTERMEDIATE, garbage], Some(NOW)).is_ok());
    assert_eq!(
        outcome(CA, &[SERVER, garbage], Some(NOW)),
        Err(TlsError::DecodeError)
    );
    assert_eq!(
        outcome(CA, &[garbage, INTERMEDIATE], Some(NOW)),
        Err(TlsError::DecodeError)
    );
    assert_eq!(
        outcome(garbage, &[SERVER, INTERMEDIATE], Some(NOW)),
        Err(TlsError::DecodeError)
    );
}

#[test]
fn bare_keys_are_refused() {
    let ca = octets(CA);
    let server = octets(NAMELESS);
    let mut cert = ServerCertificate::with_context(&[]);
    cert.add(CertificateEntryRef::RawPublicKey(&server)).unwrap();
    let result = verify_certificate_chain(&Certificate::X509(ca.as_slice()), &cert, None);
    assert!(matches!(result, Err(TlsError::DecodeError)));
    let result = verify_certificate_chain(
        &Certificate::RawPublicKey(ca.as_slice()),
        &chain_of(&[server.as_slice()]),
        None,
    );
    assert!(matches!(result, Err(TlsError::DecodeError)));
}

#[test]
fn expired_certificates_are_refused_where_the_time_is_known() {
    assert_eq!(
        outcome(CA, &[EXPIRED], Some(NOW)),
        Err(TlsError::InvalidCertificate)
    );
    assert!(outcome(CA, &[EXPIRED], Some(1_600_000_000)).is_ok());
    assert!(outcome(CA, &[EXPIRED], None).is_ok());
    assert_eq!(
        outcome(CA, &[SERVER, EXPIRED_INTERMEDIATE], Some(NOW)),
        Err(TlsError::InvalidCertificate)
    );
    assert!(outcome(CA, &[SERVER, EXPIRED_INTERMEDIATE], None).is_ok());
}

#[test]
fn the_anchor_itself_may_have_expired() {
    assert!(outcome(EXPIRED_INTERMEDIATE, &[SERVER], Some(NOW)).is_ok());
}

#[test]
fn both_bounds_of_the_period_count_as_valid() {
    let first = 1_704_067_200;
    let last = 2_019_686_400;
    assert!(outcome(CA, &[NAMELESS], Some(first)).is_ok());
    assert!(outcome(CA, &[NAMELESS], Some(last)).is_ok());
    assert_eq!(
        outcome(CA, &[NAMELESS], Some(first - 1)),
        Err(TlsError::InvalidCertificate)
    );
    assert_eq!(
        outcome(CA, &[NAMELESS], Some(last + 1)),
        Err(TlsError::InvalidCertificate)
    );
}

#[test]
fn a_changed_certificate_is_refused() {
    let ca = octets(CA);
    let mut server = octets(NAMELESS);
    let at = server.len() - 100;
    server[at] ^= 1;
    let result = verify_certificate_chain(
        &Certificate::X509(ca.as_slice()),
        &chain_of(&[server.as_slice()]),
        None,
    );
    assert!(result.is_err());
}

#[test]
fn an_unknown_signature_algorithm_is_an_error() {
    assert_eq!(
        outcome(CA_RSA, &[SERVER_RSA_PSS], None),
        Err(TlsError::InvalidSignatureScheme)
    );
}

#[test]
fn every_certificate_algorithm_reaches_its_anchor() {
    assert!(outcome(CA_P384, &[SERVER_P384], Some(NOW)).is_ok());
    assert!(outcome(CA_ED25519, &[SERVER_ED25519], Some(NOW)).is_ok());
    assert!(outcome(CA_RSA, &[SERVER_RSA_SHA256], Some(NOW)).is_ok());
    assert!(outcome(CA_RSA, &[SERVER_RSA_SHA384], Some(NOW)).is_ok());
    assert!(outcome(CA_RSA, &[SERVER_RSA_SHA512], Some(NOW)).is_ok());
}

#[test]
fn anchors_of_another_algorithm_do_not_match() {
    for server in [SERVER_P384, SERVER_ED25519, SERVER_RSA_SHA256, NAMELESS] {
        for ca in [CA, CA_P384, CA_ED25519, CA_RSA] {
            let own = (server == SERVER_P384 && ca == CA_P384)
                || (server == SERVER_ED25519 && ca == CA_ED25519)
                || (server == SERVER_RSA_SHA256 && ca == CA_RSA)
                || (server == NAMELESS && ca == CA);
            let result = outcome(ca, &[server], Some(NOW));
            if own {
                assert!(result.is_ok());
            } else {
                assert_eq!(result, Err(TlsError::InvalidCertificate));
            }
        }
    }
}

#[test]
fn names_that_are_too_long_are_an_error() {
    assert_eq!(outcome(CA, &[LONG_SAN], None), Err(TlsError::DecodeError));
}

#[test]
fn the_first_sixteen_alternative_names_are_kept() {
    let mut expected = vec![String::from("server.example.com")];
    for i in 0..16 {
        expected.push(format!("h{:02}.example.com", i));
    }
    assert_eq!(outcome(CA, &[MANY_SANS], None), Ok(expected));
}

#[test]
fn a_check_of_the_period_reads_both_kinds_of_time() {
    let der = octets(LONG_LIVED);
    let (encoding, decoded) = decode_x509_entry(&CertificateEntryRef::X509(&der)).unwrap();
    assert_eq!(encoding, der.as_slice());
    assert_eq!(check_validity(&decoded, None), Ok(()));
    assert_eq!(check_validity(&decoded, Some(1_704_067_200)), Ok(()));
    assert_eq!(check_validity(&decoded, Some(2_845_283_415)), Ok(()));
    assert_eq!(
        check_validity(&decoded, Some(1_704_067_199)),
        Err(TlsError::InvalidCertificate)
    );
    assert_eq!(
        check_validity(&decoded, Some(2_845_283_416)),
        Err(TlsError::InvalidCertificate)
    );
}

#[test]
fn entries_other_than_certificates_do_not_decode() {
    let der = octets(LONG_LIVED);
    let bare = decode_x509_entry(&CertificateEntryRef::RawPublicKey(&der));
    assert!(matches!(bare, Err(TlsError::DecodeError)));
    let cut = decode_x509_entry(&CertificateEntryRef::X509(&der[..der.len() - 1]));
    assert!(matches!(cut, Err(TlsError::DecodeError)));
}

#[test]
fn a_judgement_asks_for_validity_only_of_signed_certificates() {
    let der = octets(EXPIRED);
    let (_, decoded) = decode_x509_entry(&CertificateEntryRef::X509(&der)).unwrap();
    assert_eq!(judge(Ok(false), &decoded, Some(NOW)), Ok(false));
    assert_eq!(judge(Ok(true), &decoded, None), Ok(true));
    assert_eq!(
        judge(Ok(true), &decoded, Some(NOW)),
        Err(TlsError::InvalidCertificate)
    );
    assert_eq!(
        judge(Err(TlsError::InvalidSignatureScheme), &decoded, None),
        Err(TlsError::InvalidSignatureScheme)
    );
}
