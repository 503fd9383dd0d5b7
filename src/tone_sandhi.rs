//! Mandarin tone sandhi: per-word tone changes and the word merges that precede them.
use vstd::prelude::*;
use crate::cn2an::is_ascii_digit;
use crate::segmenter::{search_cut, Segmenter};
use crate::text::{
    chars_eq, chars_of, chars_of_all, concat_all, copy_range, string_of,
    strings_of, to_vec_chars, view_all,
};

verus! {

/// Words whose last syllable is always neutral.
pub open spec fn neutral_list() -> Seq<(char, char)> {
    seq![
        ('麻', '烦'), ('麻', '利'), ('鸳', '鸯'), ('高', '粱'), ('骨', '头'), ('骆', '驼'),
        ('马', '虎'), ('首', '饰'), ('馒', '头'), ('馄', '饨'), ('风', '筝'), ('难', '为'),
        ('队', '伍'), ('阔', '气'), ('闺', '女'), ('门', '道'), ('锄', '头'), ('铺', '盖'),
        ('铃', '铛'), ('铁', '匠'), ('钥', '匙'), ('里', '脊'), ('里', '头'), ('部', '分'),
        ('那', '么'), ('道', '士'), ('造', '化'), ('迷', '糊'), ('连', '累'), ('这', '么'),
        ('这', '个'), ('运', '气'), ('过', '去'), ('软', '和'), ('转', '悠'), ('踏', '实'),
        ('跳', '蚤'), ('跟', '头'), ('趔', '趄'), ('财', '主'), ('豆', '腐'), ('讲', '究'),
        ('记', '性'), ('记', '号'), ('认', '识'), ('规', '矩'), ('见', '识'), ('裁', '缝'),
        ('补', '丁'), ('衣', '裳'), ('衣', '服'), ('衙', '门'), ('街', '坊'), ('行', '李'),
        ('行', '当'), ('蛤', '蟆'), ('蘑', '菇'), ('薄', '荷'), ('葫', '芦'), ('葡', '萄'),
        ('萝', '卜'), ('荸', '荠'), ('苗', '条'), ('苗', '头'), ('苍', '蝇'), ('芝', '麻'),
        ('舒', '服'), ('舒', '坦'), ('舌', '头'), ('自', '在'), ('膏', '药'), ('脾', '气'),
        ('脑', '袋'), ('脊', '梁'), ('能', '耐'), ('胳', '膊'), ('胭', '脂'), ('胡', '萝'),
        ('胡', '琴'), ('胡', '同'), ('聪', '明'), ('耽', '误'), ('耽', '搁'), ('耷', '拉'),
        ('耳', '朵'), ('老', '爷'), ('老', '实'), ('老', '婆'), ('老', '头'), ('老', '太'),
        ('翻', '腾'), ('罗', '嗦'), ('罐', '头'), ('编', '辑'), ('结', '实'), ('红', '火'),
        ('累', '赘'), ('糨', '糊'), ('糊', '涂'), ('精', '神'), ('粮', '食'), ('簸', '箕'),
        ('篱', '笆'), ('算', '计'), ('算', '盘'), ('答', '应'), ('笤', '帚'), ('笑', '语'),
        ('笑', '话'), ('窟', '窿'), ('窝', '囊'), ('窗', '户'), ('稳', '当'), ('稀', '罕'),
        ('称', '呼'), ('秧', '歌'), ('秀', '气'), ('秀', '才'), ('福', '气'), ('祖', '宗'),
        ('砚', '台'), ('码', '头'), ('石', '榴'), ('石', '头'), ('石', '匠'), ('知', '识'),
        ('眼', '睛'), ('眯', '缝'), ('眨', '巴'), ('眉', '毛'), ('相', '声'), ('盘', '算'),
        ('白', '净'), ('痢', '疾'), ('痛', '快'), ('疟', '疾'), ('疙', '瘩'), ('疏', '忽'),
        ('畜', '生'), ('生', '意'), ('甘', '蔗'), ('琵', '琶'), ('琢', '磨'), ('琉', '璃'),
        ('玻', '璃'), ('玫', '瑰'), ('玄', '乎'), ('狐', '狸'), ('状', '元'), ('特', '务'),
        ('牲', '口'), ('牙', '碜'), ('牌', '楼'), ('爽', '快'), ('爱', '人'), ('热', '闹'),
        ('烧', '饼'), ('烟', '筒'), ('烂', '糊'), ('点', '心'), ('炊', '帚'), ('灯', '笼'),
        ('火', '候'), ('漂', '亮'), ('滑', '溜'), ('溜', '达'), ('温', '和'), ('清', '楚'),
        ('消', '息'), ('浪', '头'), ('活', '泼'), ('比', '方'), ('正', '经'), ('欺', '负'),
        ('模', '糊'), ('槟', '榔'), ('棺', '材'), ('棒', '槌'), ('棉', '花'), ('核', '桃'),
        ('栅', '栏'), ('柴', '火'), ('架', '势'), ('枕', '头'), ('枇', '杷'), ('机', '灵'),
        ('本', '事'), ('木', '头'), ('木', '匠'), ('朋', '友'), ('月', '饼'), ('月', '亮'),
        ('暖', '和'), ('明', '白'), ('时', '候'), ('新', '鲜'), ('故', '事'), ('收', '拾'),
        ('收', '成'), ('提', '防'), ('挖', '苦'), ('挑', '剔'), ('指', '甲'), ('指', '头'),
        ('拾', '掇'), ('拳', '头'), ('拨', '弄'), ('招', '牌'), ('招', '呼'), ('抬', '举'),
        ('护', '士'), ('折', '腾'), ('扫', '帚'), ('打', '量'), ('打', '算'), ('打', '点'),
        ('打', '扮'), ('打', '听'), ('打', '发'), ('扎', '实'), ('扁', '担'), ('戒', '指'),
        ('懒', '得'), ('意', '识'), ('意', '思'), ('情', '形'), ('悟', '性'), ('怪', '物'),
        ('思', '量'), ('怎', '么'), ('念', '头'), ('念', '叨'), ('快', '活'), ('忙', '活'),
        ('志', '气'), ('心', '思'), ('得', '罪'), ('张', '罗'), ('弟', '兄'), ('开', '通'),
        ('应', '酬'), ('庄', '稼'), ('干', '事'), ('帮', '手'), ('帐', '篷'), ('希', '罕'),
        ('师', '父'), ('师', '傅'), ('巴', '结'), ('巴', '掌'), ('差', '事'), ('工', '夫'),
        ('岁', '数'), ('屁', '股'), ('尾', '巴'), ('少', '爷'), ('小', '气'), ('小', '伙'),
        ('将', '就'), ('对', '头'), ('对', '付'), ('寡', '妇'), ('家', '伙'), ('客', '气'),
        ('实', '在'), ('官', '司'), ('学', '问'), ('学', '生'), ('字', '号'), ('嫁', '妆'),
        ('媳', '妇'), ('媒', '人'), ('婆', '家'), ('娘', '家'), ('委', '屈'), ('姑', '娘'),
        ('姐', '夫'), ('妯', '娌'), ('妥', '当'), ('妖', '精'), ('奴', '才'), ('女', '婿'),
        ('头', '发'), ('太', '阳'), ('大', '爷'), ('大', '方'), ('大', '意'), ('大', '夫'),
        ('多', '少'), ('多', '么'), ('外', '甥'), ('壮', '实'), ('地', '道'), ('地', '方'),
        ('在', '乎'), ('困', '难'), ('嘴', '巴'), ('嘱', '咐'), ('嘟', '囔'), ('嘀', '咕'),
        ('喜', '欢'), ('喇', '嘛'), ('喇', '叭'), ('商', '量'), ('唾', '沫'), ('哑', '巴'),
        ('哈', '欠'), ('哆', '嗦'), ('咳', '嗽'), ('和', '尚'), ('告', '诉'), ('告', '示'),
        ('含', '糊'), ('吓', '唬'), ('后', '头'), ('名', '字'), ('名', '堂'), ('合', '同'),
        ('吆', '喝'), ('叫', '唤'), ('口', '袋'), ('厚', '道'), ('厉', '害'), ('千', '斤'),
        ('包', '袱'), ('包', '涵'), ('匀', '称'), ('勤', '快'), ('动', '静'), ('动', '弹'),
        ('功', '夫'), ('力', '气'), ('前', '头'), ('刺', '猬'), ('刺', '激'), ('别', '扭'),
        ('利', '落'), ('利', '索'), ('利', '害'), ('分', '析'), ('出', '息'), ('凑', '合'),
        ('凉', '快'), ('冷', '战'), ('冤', '枉'), ('冒', '失'), ('养', '活'), ('关', '系'),
        ('先', '生'), ('兄', '弟'), ('便', '宜'), ('使', '唤'), ('佩', '服'), ('作', '坊'),
        ('体', '面'), ('位', '置'), ('似', '的'), ('伙', '计'), ('休', '息'), ('什', '么'),
        ('人', '家'), ('亲', '戚'), ('亲', '家'), ('交', '情'), ('云', '彩'), ('事', '情'),
        ('买', '卖'), ('主', '意'), ('丫', '头'), ('丧', '气'), ('两', '口'), ('东', '西'),
        ('东', '家'), ('世', '故'), ('不', '由'), ('不', '在'), ('下', '水'), ('下', '巴'),
        ('上', '头'), ('上', '司'), ('丈', '夫'), ('丈', '人'), ('一', '辈'), ('那', '个'),
        ('菩', '萨'), ('父', '亲'), ('母', '亲'), ('咕', '噜'), ('邋', '遢'), ('费', '用'),
        ('冤', '家'), ('甜', '头'), ('介', '绍'), ('荒', '唐'), ('大', '人'), ('泥', '鳅'),
        ('幸', '福'), ('熟', '悉'), ('计', '划'), ('扑', '腾'), ('蜡', '烛'), ('姥', '爷'),
        ('照', '顾'), ('喉', '咙'), ('吉', '他'), ('弄', '堂'), ('蚂', '蚱'), ('凤', '凰'),
        ('拖', '沓'), ('寒', '碜'), ('糟', '蹋'), ('倒', '腾'), ('报', '复'), ('逻', '辑'),
        ('盘', '缠'), ('喽', '啰'), ('牢', '骚'), ('咖', '喱'), ('扫', '把'), ('惦', '记'),
    ]
}

fn neutral_table() -> (r: Vec<(char, char)>)
    ensures
        r@ == neutral_list(),
{
    let r = vec![
        ('麻', '烦'), ('麻', '利'), ('鸳', '鸯'), ('高', '粱'), ('骨', '头'), ('骆', '驼'),
        ('马', '虎'), ('首', '饰'), ('馒', '头'), ('馄', '饨'), ('风', '筝'), ('难', '为'),
        ('队', '伍'), ('阔', '气'), ('闺', '女'), ('门', '道'), ('锄', '头'), ('铺', '盖'),
        ('铃', '铛'), ('铁', '匠'), ('钥', '匙'), ('里', '脊'), ('里', '头'), ('部', '分'),
        ('那', '么'), ('道', '士'), ('造', '化'), ('迷', '糊'), ('连', '累'), ('这', '么'),
        ('这', '个'), ('运', '气'), ('过', '去'), ('软', '和'), ('转', '悠'), ('踏', '实'),
        ('跳', '蚤'), ('跟', '头'), ('趔', '趄'), ('财', '主'), ('豆', '腐'), ('讲', '究'),
        ('记', '性'), ('记', '号'), ('认', '识'), ('规', '矩'), ('见', '识'), ('裁', '缝'),
        ('补', '丁'), ('衣', '裳'), ('衣', '服'), ('衙', '门'), ('街', '坊'), ('行', '李'),
        ('行', '当'), ('蛤', '蟆'), ('蘑', '菇'), ('薄', '荷'), ('葫', '芦'), ('葡', '萄'),
        ('萝', '卜'), ('荸', '荠'), ('苗', '条'), ('苗', '头'), ('苍', '蝇'), ('芝', '麻'),
        ('舒', '服'), ('舒', '坦'), ('舌', '头'), ('自', '在'), ('膏', '药'), ('脾', '气'),
        ('脑', '袋'), ('脊', '梁'), ('能', '耐'), ('胳', '膊'), ('胭', '脂'), ('胡', '萝'),
        ('胡', '琴'), ('胡', '同'), ('聪', '明'), ('耽', '误'), ('耽', '搁'), ('耷', '拉'),
        ('耳', '朵'), ('老', '爷'), ('老', '实'), ('老', '婆'), ('老', '头'), ('老', '太'),
        ('翻', '腾'), ('罗', '嗦'), ('罐', '头'), ('编', '辑'), ('结', '实'), ('红', '火'),
        ('累', '赘'), ('糨', '糊'), ('糊', '涂'), ('精', '神'), ('粮', '食'), ('簸', '箕'),
        ('篱', '笆'), ('算', '计'), ('算', '盘'), ('答', '应'), ('笤', '帚'), ('笑', '语'),
        ('笑', '话'), ('窟', '窿'), ('窝', '囊'), ('窗', '户'), ('稳', '当'), ('稀', '罕'),
        ('称', '呼'), ('秧', '歌'), ('秀', '气'), ('秀', '才'), ('福', '气'), ('祖', '宗'),
        ('砚', '台'), ('码', '头'), ('石', '榴'), ('石', '头'), ('石', '匠'), ('知', '识'),
        ('眼', '睛'), ('眯', '缝'), ('眨', '巴'), ('眉', '毛'), ('相', '声'), ('盘', '算'),
        ('白', '净'), ('痢', '疾'), ('痛', '快'), ('疟', '疾'), ('疙', '瘩'), ('疏', '忽'),
        ('畜', '生'), ('生', '意'), ('甘', '蔗'), ('琵', '琶'), ('琢', '磨'), ('琉', '璃'),
        ('玻', '璃'), ('玫', '瑰'), ('玄', '乎'), ('狐', '狸'), ('状', '元'), ('特', '务'),
        ('牲', '口'), ('牙', '碜'), ('牌', '楼'), ('爽', '快'), ('爱', '人'), ('热', '闹'),
        ('烧', '饼'), ('烟', '筒'), ('烂', '糊'), ('点', '心'), ('炊', '帚'), ('灯', '笼'),
        ('火', '候'), ('漂', '亮'), ('滑', '溜'), ('溜', '达'), ('温', '和'), ('清', '楚'),
        ('消', '息'), ('浪', '头'), ('活', '泼'), ('比', '方'), ('正', '经'), ('欺', '负'),
        ('模', '糊'), ('槟', '榔'), ('棺', '材'), ('棒', '槌'), ('棉', '花'), ('核', '桃'),
        ('栅', '栏'), ('柴', '火'), ('架', '势'), ('枕', '头'), ('枇', '杷'), ('机', '灵'),
        ('本', '事'), ('木', '头'), ('木', '匠'), ('朋', '友'), ('月', '饼'), ('月', '亮'),
        ('暖', '和'), ('明', '白'), ('时', '候'), ('新', '鲜'), ('故', '事'), ('收', '拾'),
        ('收', '成'), ('提', '防'), ('挖', '苦'), ('挑', '剔'), ('指', '甲'), ('指', '头'),
        ('拾', '掇'), ('拳', '头'), ('拨', '弄'), ('招', '牌'), ('招', '呼'), ('抬', '举'),
        ('护', '士'), ('折', '腾'), ('扫', '帚'), ('打', '量'), ('打', '算'), ('打', '点'),
        ('打', '扮'), ('打', '听'), ('打', '发'), ('扎', '实'), ('扁', '担'), ('戒', '指'),
        ('懒', '得'), ('意', '识'), ('意', '思'), ('情', '形'), ('悟', '性'), ('怪', '物'),
        ('思', '量'), ('怎', '么'), ('念', '头'), ('念', '叨'), ('快', '活'), ('忙', '活'),
        ('志', '气'), ('心', '思'), ('得', '罪'), ('张', '罗'), ('弟', '兄'), ('开', '通'),
        ('应', '酬'), ('庄', '稼'), ('干', '事'), ('帮', '手'), ('帐', '篷'), ('希', '罕'),
        ('师', '父'), ('师', '傅'), ('巴', '结'), ('巴', '掌'), ('差', '事'), ('工', '夫'),
        ('岁', '数'), ('屁', '股'), ('尾', '巴'), ('少', '爷'), ('小', '气'), ('小', '伙'),
        ('将', '就'), ('对', '头'), ('对', '付'), ('寡', '妇'), ('家', '伙'), ('客', '气'),
        ('实', '在'), ('官', '司'), ('学', '问'), ('学', '生'), ('字', '号'), ('嫁', '妆'),
        ('媳', '妇'), ('媒', '人'), ('婆', '家'), ('娘', '家'), ('委', '屈'), ('姑', '娘'),
        ('姐', '夫'), ('妯', '娌'), ('妥', '当'), ('妖', '精'), ('奴', '才'), ('女', '婿'),
        ('头', '发'), ('太', '阳'), ('大', '爷'), ('大', '方'), ('大', '意'), ('大', '夫'),
        ('多', '少'), ('多', '么'), ('外', '甥'), ('壮', '实'), ('地', '道'), ('地', '方'),
        ('在', '乎'), ('困', '难'), ('嘴', '巴'), ('嘱', '咐'), ('嘟', '囔'), ('嘀', '咕'),
        ('喜', '欢'), ('喇', '嘛'), ('喇', '叭'), ('商', '量'), ('唾', '沫'), ('哑', '巴'),
        ('哈', '欠'), ('哆', '嗦'), ('咳', '嗽'), ('和', '尚'), ('告', '诉'), ('告', '示'),
        ('含', '糊'), ('吓', '唬'), ('后', '头'), ('名', '字'), ('名', '堂'), ('合', '同'),
        ('吆', '喝'), ('叫', '唤'), ('口', '袋'), ('厚', '道'), ('厉', '害'), ('千', '斤'),
        ('包', '袱'), ('包', '涵'), ('匀', '称'), ('勤', '快'), ('动', '静'), ('动', '弹'),
        ('功', '夫'), ('力', '气'), ('前', '头'), ('刺', '猬'), ('刺', '激'), ('别', '扭'),
        ('利', '落'), ('利', '索'), ('利', '害'), ('分', '析'), ('出', '息'), ('凑', '合'),
        ('凉', '快'), ('冷', '战'), ('冤', '枉'), ('冒', '失'), ('养', '活'), ('关', '系'),
        ('先', '生'), ('兄', '弟'), ('便', '宜'), ('使', '唤'), ('佩', '服'), ('作', '坊'),
        ('体', '面'), ('位', '置'), ('似', '的'), ('伙', '计'), ('休', '息'), ('什', '么'),
        ('人', '家'), ('亲', '戚'), ('亲', '家'), ('交', '情'), ('云', '彩'), ('事', '情'),
        ('买', '卖'), ('主', '意'), ('丫', '头'), ('丧', '气'), ('两', '口'), ('东', '西'),
        ('东', '家'), ('世', '故'), ('不', '由'), ('不', '在'), ('下', '水'), ('下', '巴'),
        ('上', '头'), ('上', '司'), ('丈', '夫'), ('丈', '人'), ('一', '辈'), ('那', '个'),
        ('菩', '萨'), ('父', '亲'), ('母', '亲'), ('咕', '噜'), ('邋', '遢'), ('费', '用'),
        ('冤', '家'), ('甜', '头'), ('介', '绍'), ('荒', '唐'), ('大', '人'), ('泥', '鳅'),
        ('幸', '福'), ('熟', '悉'), ('计', '划'), ('扑', '腾'), ('蜡', '烛'), ('姥', '爷'),
        ('照', '顾'), ('喉', '咙'), ('吉', '他'), ('弄', '堂'), ('蚂', '蚱'), ('凤', '凰'),
        ('拖', '沓'), ('寒', '碜'), ('糟', '蹋'), ('倒', '腾'), ('报', '复'), ('逻', '辑'),
        ('盘', '缠'), ('喽', '啰'), ('牢', '骚'), ('咖', '喱'), ('扫', '把'), ('惦', '记'),
    ];
    assert(r@ =~= neutral_list());
    r
}

/// Words never given a neutral tone.
pub open spec fn not_neutral_list() -> Seq<(char, char)> {
    seq![
        ('男', '子'), ('女', '子'), ('分', '子'), ('原', '子'), ('量', '子'), ('莲', '子'),
        ('石', '子'), ('瓜', '子'), ('电', '子'), ('人', '人'), ('虎', '虎'),
    ]
}

fn not_neutral_table() -> (r: Vec<(char, char)>)
    ensures
        r@ == not_neutral_list(),
{
    let r = vec![
        ('男', '子'), ('女', '子'), ('分', '子'), ('原', '子'), ('量', '子'), ('莲', '子'),
        ('石', '子'), ('瓜', '子'), ('电', '子'), ('人', '人'), ('虎', '虎'),
    ];
    assert(r@ =~= not_neutral_list());
    r
}

pub open spec fn in_pair_list(l: Seq<(char, char)>, w: Seq<char>) -> bool {
    w.len() == 2 && l.contains((w[0], w[1]))
}

pub open spec fn must_neutral(w: Seq<char>) -> bool {
    in_pair_list(neutral_list(), w)
}

pub open spec fn must_not_neutral(w: Seq<char>) -> bool {
    in_pair_list(not_neutral_list(), w)
}

fn in_pair_table(t: &Vec<(char, char)>, w: &[char]) -> (r: bool)
    ensures
        r == in_pair_list(t@, w@),
{
    if w.len() != 2 {
        return false;
    }
    let mut i: usize = 0;
    while i < t.len()
        invariant
            w@.len() == 2,
            i <= t.len(),
            forall|j: int| 0 <= j < i ==> t@[j] != (w@[0], w@[1]),
        decreases t.len() - i,
    {
        if t[i].0 == w[0] && t[i].1 == w[1] {
            assert(t@[i as int] == (w@[0], w@[1]));
            return true;
        }
        i = i + 1;
    }
    false
}

/// The tone digit of a final: its last character, `5` when empty.
pub open spec fn tone_of(f: Seq<char>) -> char {
    if f.len() > 0 {
        f.last()
    } else {
        '5'
    }
}

/// The final with tone `t`: its trailing digit replaced, or `t` appended.
pub open spec fn with_tone(f: Seq<char>, t: char) -> Seq<char> {
    if f.len() > 0 && is_ascii_digit(f.last()) {
        f.drop_last().push(t)
    } else {
        f.push(t)
    }
}

pub open spec fn all_tone_three(fs: Seq<Seq<char>>) -> bool {
    forall|i: int| 0 <= i < fs.len() ==> tone_of(#[trigger] fs[i]) == '3'
}

fn tone_of_exec(f: &[char]) -> (r: char)
    ensures
        r == tone_of(f@),
{
    if f.len() > 0 {
        f[f.len() - 1]
    } else {
        '5'
    }
}

/// Sets the tone digit of a final.
pub fn set_tone(f: &[char], t: char) -> (r: Vec<char>)
    ensures
        r@ == with_tone(f@, t),
{
    let mut r = to_vec_chars(f);
    if r.len() > 0 && '0' <= r[r.len() - 1] && r[r.len() - 1] <= '9' {
        r.pop();
    }
    r.push(t);
    r
}

fn all_tone_three_exec(fs: &Vec<Vec<char>>) -> (r: bool)
    ensures
        r == all_tone_three(view_all(fs@)),
{
    let mut i: usize = 0;
    while i < fs.len()
        invariant
            i <= fs.len(),
            forall|j: int| 0 <= j < i ==> tone_of(#[trigger] view_all(fs@)[j]) == '3',
        decreases fs.len() - i,
    {
        if tone_of_exec(fs[i].as_slice()) != '3' {
            assert(tone_of(view_all(fs@)[i as int]) != '3');
            return false;
        }
        i = i + 1;
    }
    true
}

/// Replaces the tone of `f[i]`.
fn retone_at(f: &mut Vec<Vec<char>>, i: usize, t: char)
    requires
        i < old(f).len(),
    ensures
        final(f)@.len() == old(f)@.len(),
        view_all(final(f)@) == view_all(old(f)@).update(i as int, with_tone(old(f)@[i as int]@, t)),
{
    let x = set_tone(f[i].as_slice(), t);
    f.set(i, x);
    assert(view_all(f@) =~= view_all(old(f)@).update(i as int, with_tone(old(f)@[i as int]@, t)));
}

pub open spec fn last_neutral(f: Seq<Seq<char>>) -> Seq<Seq<char>> {
    if f.len() > 0 {
        f.update(f.len() - 1, with_tone(f.last(), '5'))
    } else {
        f
    }
}

fn last_neutral_exec(f: &mut Vec<Vec<char>>)
    ensures
        final(f)@.len() == old(f)@.len(),
        view_all(final(f)@) == last_neutral(view_all(old(f)@)),
{
    if f.len() > 0 {
        let n = f.len() - 1;
        retone_at(f, n, '5');
    }
}

/// `不` sandhi: the middle `不` of a three-character word is neutral; `不` before a
/// fourth tone takes the second tone.
pub open spec fn bu_sandhi(w: Seq<char>, f: Seq<Seq<char>>) -> Seq<Seq<char>> {
    if w.len() == 3 && w[1] == '不' {
        if 1 < f.len() {
            f.update(1, with_tone(f[1], '5'))
        } else {
            f
        }
    } else {
        Seq::new(
            f.len(),
            |i: int|
                if i + 1 < w.len() && w[i] == '不' && i + 1 < f.len() && tone_of(f[i + 1]) == '4' {
                    with_tone(f[i], '2')
                } else {
                    f[i]
                },
        )
    }
}

pub open spec fn is_sandhi_punct(c: char) -> bool {
    c == '：' || c == '，' || c == '；' || c == '。' || c == '？' || c == '！' || c == '“' || c == '”'
        || c == '‘' || c == '’' || c == '\'' || c == ':' || c == ',' || c == ';' || c == '.' || c
        == '?' || c == '!'
}

fn is_sandhi_punct_exec(c: char) -> (r: bool)
    ensures
        r == is_sandhi_punct(c),
{
    c == '：' || c == '，' || c == '；' || c == '。' || c == '？' || c == '！' || c == '“' || c == '”'
        || c == '‘' || c == '’' || c == '\'' || c == ':' || c == ',' || c == ';' || c == '.' || c
        == '?' || c == '!'
}

/// `一` sandhi: unchanged inside a numeral; neutral in `V一V`; first tone in `第一`;
/// else second tone before a fourth tone and fourth tone before any other syllable.
pub open spec fn yi_sandhi(w: Seq<char>, f: Seq<Seq<char>>) -> Seq<Seq<char>> {
    if w.contains('一') && (forall|i: int| 0 <= i < w.len() && w[i] != '一' ==> is_ascii_digit(w[i])) {
        f
    } else if w.len() == 3 && w[1] == '一' && w[0] == w[2] {
        if 1 < f.len() {
            f.update(1, with_tone(f[1], '5'))
        } else {
            f
        }
    } else if w.len() >= 2 && w[0] == '第' && w[1] == '一' {
        if f.len() >= 2 {
            f.update(1, with_tone(f[1], '1'))
        } else {
            f
        }
    } else {
        Seq::new(
            f.len(),
            |i: int|
                if i + 1 < w.len() && w[i] == '一' && i + 1 < f.len() {
                    if tone_of(f[i + 1]) == '4' {
                        with_tone(f[i], '2')
                    } else if !is_sandhi_punct(w[i + 1]) {
                        with_tone(f[i], '4')
                    } else {
                        f[i]
                    }
                } else {
                    f[i]
                },
        )
    }
}

fn bu_sandhi_exec(w: &Vec<char>, f: &Vec<Vec<char>>) -> (r: Vec<Vec<char>>)
    ensures
        view_all(r@) == bu_sandhi(w@, view_all(f@)),
{
    let mut r = copy_range(f, 0, f.len());
    assert(view_all(f@).subrange(0, f.len() as int) =~= view_all(f@));
    if w.len() == 3 && w[1] == '不' {
        if 1 < r.len() {
            retone_at(&mut r, 1, '5');
        }
        return r;
    }
    let mut i: usize = 0;
    while i < f.len()
        invariant
            i <= f.len(),
            r@.len() == f@.len(),
            !(w@.len() == 3 && w@[1] == '不'),
            forall|q: int| 0 <= q < i ==> #[trigger] view_all(r@)[q] == bu_sandhi(w@, view_all(f@))[q],
            forall|q: int| i <= q < f.len() ==> #[trigger] view_all(r@)[q] == view_all(f@)[q],
        decreases f.len() - i,
    {
        let ghost vf = view_all(f@);
        let ghost r0 = view_all(r@);
        assert(r0[i as int] == vf[i as int]);
        let c = i + 1 < w.len() && w[i] == '不' && i + 1 < f.len() && tone_of_exec(f[i + 1].as_slice()) == '4';
        proof {
            if i + 1 < f.len() {
                assert(vf[i + 1] == f@[i + 1]@);
            }
            assert(c == (i + 1 < w@.len() && w@[i as int] == '不' && i + 1 < vf.len() && tone_of(vf[i + 1]) == '4'));
        }
        if c {
            retone_at(&mut r, i, '2');
            assert(view_all(r@)[i as int] == with_tone(vf[i as int], '2'));
        }
        assert(view_all(r@)[i as int] == bu_sandhi(w@, vf)[i as int]);
        i = i + 1;
    }
    assert(view_all(r@) =~= bu_sandhi(w@, view_all(f@)));
    r
}

fn yi_sandhi_exec(w: &Vec<char>, f: &Vec<Vec<char>>) -> (r: Vec<Vec<char>>)
    ensures
        view_all(r@) == yi_sandhi(w@, view_all(f@)),
{
    let mut r = copy_range(f, 0, f.len());
    assert(view_all(f@).subrange(0, f.len() as int) =~= view_all(f@));
    let mut has_yi = false;
    let mut others_digits = true;
    let mut k: usize = 0;
    while k < w.len()
        invariant
            k <= w.len(),
            has_yi == exists|i: int| 0 <= i < k && w@[i] == '一',
            others_digits == forall|i: int| 0 <= i < k && w@[i] != '一' ==> is_ascii_digit(w@[i]),
        decreases w.len() - k,
    {
        if w[k] == '一' {
            has_yi = true;
        } else if !('0' <= w[k] && w[k] <= '9') {
            others_digits = false;
        }
        k = k + 1;
    }
    if has_yi && others_digits {
        return r;
    }
    if w.len() == 3 && w[1] == '一' && w[0] == w[2] {
        if 1 < r.len() {
            retone_at(&mut r, 1, '5');
        }
        return r;
    }
    if w.len() >= 2 && w[0] == '第' && w[1] == '一' {
        if r.len() >= 2 {
            retone_at(&mut r, 1, '1');
        }
        return r;
    }
    let mut i: usize = 0;
    while i < f.len()
        invariant
            i <= f.len(),
            r@.len() == f@.len(),
            !(w@.contains('一') && (forall|i: int| 0 <= i < w@.len() && w@[i] != '一' ==> is_ascii_digit(w@[i]))),
            !(w@.len() == 3 && w@[1] == '一' && w@[0] == w@[2]),
            !(w@.len() >= 2 && w@[0] == '第' && w@[1] == '一'),
            forall|q: int| 0 <= q < i ==> #[trigger] view_all(r@)[q] == yi_sandhi(w@, view_all(f@))[q],
            forall|q: int| i <= q < f.len() ==> #[trigger] view_all(r@)[q] == view_all(f@)[q],
        decreases f.len() - i,
    {
        let ghost vf = view_all(f@);
        let ghost r0 = view_all(r@);
        assert(r0[i as int] == vf[i as int]);
        if i + 1 < w.len() && w[i] == '一' && i + 1 < f.len() {
            assert(vf[i + 1] == f@[i + 1]@);
            if tone_of_exec(f[i + 1].as_slice()) == '4' {
                retone_at(&mut r, i, '2');
                assert(view_all(r@)[i as int] == with_tone(vf[i as int], '2'));
            } else if !is_sandhi_punct_exec(w[i + 1]) {
                retone_at(&mut r, i, '4');
                assert(view_all(r@)[i as int] == with_tone(vf[i as int], '4'));
            }
        }
        assert(view_all(r@)[i as int] == yi_sandhi(w@, vf)[i as int]);
        i = i + 1;
    }
    assert(view_all(r@) =~= yi_sandhi(w@, view_all(f@)));
    r
}

/// Index of the first shortest word of `seg[i..]`, `best` standing for the ones before.
pub open spec fn shortest_from(seg: Seq<Seq<char>>, i: int, best: int) -> int
    decreases seg.len() - i,
{
    if i < 0 || i >= seg.len() {
        best
    } else if seg[i].len() < seg[best].len() {
        shortest_from(seg, i + 1, i)
    } else {
        shortest_from(seg, i + 1, best)
    }
}

pub open spec fn starts_with(w: Seq<char>, p: Seq<char>) -> bool {
    p.len() <= w.len() && w.take(p.len() as int) == p
}

pub open spec fn occurs_in(w: Seq<char>, p: Seq<char>) -> bool {
    exists|k: int| 0 <= k && k + p.len() <= w.len() && #[trigger] w.subrange(k, k + p.len()) == p
}

/// A word cut in two around the first of its shortest search-mode sub-words: that
/// sub-word and the rest when it is a prefix; else the rest and that sub-word; the word
/// and nothing when there is no sub-word in it.
pub open spec fn split_of(w: Seq<char>) -> (Seq<char>, Seq<char>) {
    let seg = search_cut(w);
    if seg.len() == 0 {
        (w, seq![])
    } else {
        let first = seg[shortest_from(seg, 1, 0)];
        if starts_with(w, first) {
            (first, w.skip(first.len() as int))
        } else if occurs_in(w, first) {
            (w.take(w.len() - first.len()), first)
        } else {
            (w, seq![])
        }
    }
}

pub open spec fn is_neutral_word(w: Seq<char>) -> bool {
    must_neutral(w) || (w.len() >= 2 && must_neutral(w.skip(w.len() - 2)))
}

pub open spec fn nva(pos: Seq<char>) -> bool {
    pos.len() > 0 && (pos[0] == 'n' || pos[0] == 'v' || pos[0] == 'a')
}

/// Second of two equal characters in a noun, verb or adjective is neutral.
pub open spec fn reduplication_neutral(w: Seq<char>, pos: Seq<char>, f: Seq<Seq<char>>) -> Seq<Seq<char>> {
    if w.len() > 0 && !must_not_neutral(w) && nva(pos) {
        Seq::new(
            f.len(),
            |j: int|
                if 1 <= j < w.len() && w[j] == w[j - 1] {
                    with_tone(f[j], '5')
                } else {
                    f[j]
                },
        )
    } else {
        f
    }
}

pub open spec fn is_final_particle(c: char) -> bool {
    c == '吧' || c == '呢' || c == '啊' || c == '呐' || c == '噻' || c == '嘛' || c == '吖' || c == '嗨'
        || c == '哦' || c == '哒' || c == '额' || c == '滴' || c == '哩' || c == '哟' || c == '喽' || c
        == '啰' || c == '耶' || c == '喔' || c == '诶'
}

pub open spec fn is_directional_head(c: char) -> bool {
    c == '上' || c == '下' || c == '进' || c == '出' || c == '回' || c == '过' || c == '起' || c == '开'
}

pub open spec fn is_classifier_head(c: char) -> bool {
    c == '几' || c == '有' || c == '两' || c == '半' || c == '多' || c == '各' || c == '整' || c == '每'
        || c == '做' || c == '是'
}

fn is_final_particle_exec(c: char) -> (r: bool)
    ensures
        r == is_final_particle(c),
{
    c == '吧' || c == '呢' || c == '啊' || c == '呐' || c == '噻' || c == '嘛' || c == '吖' || c == '嗨'
        || c == '哦' || c == '哒' || c == '额' || c == '滴' || c == '哩' || c == '哟' || c == '喽' || c
        == '啰' || c == '耶' || c == '喔' || c == '诶'
}

fn is_directional_head_exec(c: char) -> (r: bool)
    ensures
        r == is_directional_head(c),
{
    c == '上' || c == '下' || c == '进' || c == '出' || c == '回' || c == '过' || c == '起' || c == '开'
}

fn is_classifier_head_exec(c: char) -> (r: bool)
    ensures
        r == is_classifier_head(c),
{
    c == '几' || c == '有' || c == '两' || c == '半' || c == '多' || c == '各' || c == '整' || c == '每'
        || c == '做' || c == '是'
}

/// The word ends in a particle or suffix that is read neutral.
pub open spec fn ends_in_neutral_suffix(w: Seq<char>, pos: Seq<char>) -> bool {
    let last = w.last();
    is_final_particle(last) || last == '的' || last == '地' || last == '得' || (w.len() > 1 && (last
        == '们' || last == '子') && (pos.len() == 1 && (pos[0] == 'r' || pos[0] == 'n')) && !must_not_neutral(w))
        || (w.len() > 1 && (last == '上' || last == '下' || last == '里') && (pos.len() == 1 && (pos[0] == 's'
        || pos[0] == 'l' || pos[0] == 'f'))) || (w.len() > 1 && (last == '来' || last == '去')
        && is_directional_head(w[w.len() - 2]))
}

/// Index of the first `c` at or after `i`.
pub open spec fn index_from(w: Seq<char>, c: char, i: int) -> Option<int>
    decreases w.len() - i,
{
    if i < 0 || i >= w.len() {
        None
    } else if w[i] == c {
        Some(i)
    } else {
        index_from(w, c, i + 1)
    }
}

pub open spec fn ge_is_classifier(w: Seq<char>) -> bool {
    match index_from(w, '个', 0) {
        Some(g) => g >= 1 && (is_ascii_digit(w[g - 1]) || is_classifier_head(w[g - 1])),
        None => false,
    }
}

/// Neutral tone from the word's ending, from `个` as a classifier, or from the list of
/// neutral-tone words.
pub open spec fn suffix_neutral(w: Seq<char>, pos: Seq<char>, f: Seq<Seq<char>>) -> Seq<Seq<char>> {
    if w.len() >= 1 {
        if ends_in_neutral_suffix(w, pos) {
            last_neutral(f)
        } else if ge_is_classifier(w) || w == seq!['个'] {
            match index_from(w, '个', 0) {
                Some(g) => if g < f.len() {
                    f.update(g, with_tone(f[g], '5'))
                } else {
                    f
                },
                None => f,
            }
        } else if is_neutral_word(w) {
            last_neutral(f)
        } else {
            f
        }
    } else {
        f
    }
}

/// Each half of the split word that is a neutral-tone word gets a neutral last syllable.
pub open spec fn halves_neutral(w: Seq<char>, f: Seq<Seq<char>>) -> Seq<Seq<char>> {
    let (a, b) = split_of(w);
    let k = a.len() as int;
    if k <= f.len() {
        (if is_neutral_word(a) { last_neutral(f.take(k)) } else { f.take(k) }) + (if is_neutral_word(
            b,
        ) {
            last_neutral(f.skip(k))
        } else {
            f.skip(k)
        })
    } else {
        f
    }
}

pub open spec fn neutral_sandhi(w: Seq<char>, pos: Seq<char>, f: Seq<Seq<char>>) -> Seq<Seq<char>> {
    halves_neutral(w, suffix_neutral(w, pos, reduplication_neutral(w, pos, f)))
}

pub open spec fn first_second(f: Seq<Seq<char>>) -> Seq<Seq<char>> {
    if all_tone_three(f) && f.len() == 2 {
        f.update(0, with_tone(f[0], '2'))
    } else {
        f
    }
}

/// Third-tone sandhi: in a run of third tones, all but the last of each prosodic unit
/// take the second tone.
pub open spec fn three_sandhi(w: Seq<char>, f: Seq<Seq<char>>) -> Seq<Seq<char>> {
    if w.len() == 2 && all_tone_three(f) {
        if f.len() > 0 {
            f.update(0, with_tone(f[0], '2'))
        } else {
            f
        }
    } else if w.len() == 3 {
        let k = split_of(w).0.len() as int;
        if all_tone_three(f) {
            if k == 2 && f.len() >= 2 {
                f.update(0, with_tone(f[0], '2')).update(1, with_tone(f[1], '2'))
            } else if k == 1 && f.len() >= 2 {
                f.update(1, with_tone(f[1], '2'))
            } else {
                f
            }
        } else if k < f.len() {
            let a1 = first_second(f.take(k));
            let b = f.skip(k);
            let b1 = first_second(b);
            let a2 = if !all_tone_three(b) && tone_of(b[0]) == '3' && a1.len() > 0 && tone_of(
                a1.last(),
            ) == '3' {
                a1.update(a1.len() - 1, with_tone(a1.last(), '2'))
            } else {
                a1
            };
            a2 + b1
        } else {
            f
        }
    } else if w.len() == 4 && f.len() == 4 {
        first_second(f.take(2)) + first_second(f.skip(2))
    } else {
        f
    }
}

/// All per-word sandhi rules, in order: `不`, `一`, neutral tone, third tone.
#[verifier::opaque]
pub open spec fn modified(w: Seq<char>, pos: Seq<char>, f: Seq<Seq<char>>) -> Seq<Seq<char>> {
    three_sandhi(w, neutral_sandhi(w, pos, yi_sandhi(w, bu_sandhi(w, f))))
}

/// Tone sandhi, with the segmenter it splits compound words with.
pub struct ToneSandhi {
    segmenter: Segmenter,
}

fn first_second_exec(f: &mut Vec<Vec<char>>)
    ensures
        view_all(final(f)@) == first_second(view_all(old(f)@)),
        final(f)@.len() == old(f)@.len(),
{
    if f.len() == 2 && all_tone_three_exec(f) {
        retone_at(f, 0, '2');
    }
}

impl ToneSandhi {
    pub fn new() -> ToneSandhi {
        ToneSandhi { segmenter: Segmenter::new() }
    }

    pub fn segmenter(&self) -> &Segmenter {
        &self.segmenter
    }

    /// Cuts a word in two around its first shortest search-mode sub-word.
    pub fn split_word(&self, w: &Vec<char>) -> (r: (Vec<char>, Vec<char>))
        ensures
            (r.0@, r.1@) == split_of(w@),
    {
        let ws = string_of(w.as_slice());
        let seg_s = self.segmenter.cut_for_search(ws.as_str());
        let seg = chars_of_all(&seg_s);
        let ghost sv = search_cut(w@);
        assert(view_all(seg@) =~= sv);
        if seg.len() == 0 {
            return (to_vec_chars(w.as_slice()), Vec::new());
        }
        let mut best: usize = 0;
        let mut i: usize = 1;
        while i < seg.len()
            invariant
                view_all(seg@) == sv,
                1 <= i <= seg.len(),
                best < i,
                shortest_from(sv, 1, 0) == shortest_from(sv, i as int, best as int),
            decreases seg.len() - i,
        {
            if seg[i].len() < seg[best].len() {
                best = i;
            }
            i = i + 1;
        }
        let first = &seg[best];
        let fl = first.len();
        if fl <= w.len() {
            let mut pre = true;
            let mut q: usize = 0;
            assert(w@.take(0) =~= first@.take(0));
            while q < fl
                invariant
                    fl == first@.len() <= w@.len(),
                    q <= fl,
                    pre == (w@.take(q as int) == first@.take(q as int)),
                decreases fl - q,
            {
                if w[q] != first[q] {
                    pre = false;
                }
                proof {
                    assert(w@.take(q + 1) == w@.take(q as int).push(w@[q as int]));
                    assert(first@.take(q + 1) == first@.take(q as int).push(first@[q as int]));
                    if !pre && w@.take(q as int) == first@.take(q as int) {
                        assert(w@.take(q + 1)[q as int] != first@.take(q + 1)[q as int]);
                    }
                    if w@.take(q + 1) == first@.take(q + 1) {
                        assert(w@.take(q as int) =~= w@.take(q + 1).drop_last());
                        assert(first@.take(q as int) =~= first@.take(q + 1).drop_last());
                    }
                }
                q = q + 1;
            }
            assert(first@.take(fl as int) =~= first@);
            if pre {
                let mut rest: Vec<char> = Vec::new();
                let mut m = fl;
                while m < w.len()
                    invariant
                        fl <= m <= w.len(),
                        rest@ == w@.subrange(fl as int, m as int),
                    decreases w.len() - m,
                {
                    rest.push(w[m]);
                    m = m + 1;
                    assert(rest@ =~= w@.subrange(fl as int, m as int));
                }
                assert(w@.skip(fl as int) =~= w@.subrange(fl as int, w.len() as int));
                return (to_vec_chars(first.as_slice()), rest);
            }
            let mut found = false;
            let mut k: usize = 0;
            while k <= w.len() - fl && !found
                invariant
                    fl == first@.len() <= w@.len(),
                    k <= w.len() - fl + 1,
                    found ==> occurs_in(w@, first@),
                    !found ==> forall|j: int| 0 <= j < k ==> #[trigger] w@.subrange(j, j + fl) != first@,
                decreases w.len() + 1 - k - (if found { 1int } else { 0int }),
            {
                if chars_eq(w.as_slice().split_at(k).1.split_at(fl).0, first.as_slice()) {
                    assert(w@.skip(k as int).take(fl as int) =~= w@.subrange(k as int, k + fl));
                    found = true;
                } else {
                    assert(w@.skip(k as int).take(fl as int) =~= w@.subrange(k as int, k + fl));
                    k = k + 1;
                }
            }
            if found {
                let n = w.len() - fl;
                let mut head: Vec<char> = Vec::new();
                let mut m: usize = 0;
                while m < n
                    invariant
                        n <= w.len(),
                        m <= n,
                        head@ == w@.take(m as int),
                    decreases n - m,
                {
                    head.push(w[m]);
                    m = m + 1;
                    assert(head@ =~= w@.take(m as int));
                }
                return (head, to_vec_chars(first.as_slice()));
            }
        }
        (to_vec_chars(w.as_slice()), Vec::new())
    }

    fn must_neutral_exec(w: &[char]) -> (r: bool)
        ensures
            r == must_neutral(w@),
    {
        let t = neutral_table();
        in_pair_table(&t, w)
    }

    fn is_neutral_word_exec(w: &[char]) -> (r: bool)
        ensures
            r == is_neutral_word(w@),
    {
        if Self::must_neutral_exec(w) {
            return true;
        }
        if w.len() >= 2 {
            let tail = w.split_at(w.len() - 2).1;
            assert(tail@ =~= w@.skip(w@.len() - 2));
            Self::must_neutral_exec(tail)
        } else {
            false
        }
    }

    fn neutral_sandhi_exec(&self, w: &Vec<char>, pos: &Vec<char>, f: &Vec<Vec<char>>) -> (r: Vec<Vec<char>>)
        ensures
            view_all(r@) == neutral_sandhi(w@, pos@, view_all(f@)),
    {
        let mut r = copy_range(f, 0, f.len());
        let ghost vf = view_all(f@);
        assert(vf.subrange(0, f.len() as int) =~= vf);
        let nt = not_neutral_table();
        let redup = w.len() > 0 && !in_pair_table(&nt, w.as_slice()) && pos.len() > 0 && (pos[0]
            == 'n' || pos[0] == 'v' || pos[0] == 'a');
        if redup {
            let mut j: usize = 0;
            while j < f.len()
                invariant
                    redup == (w@.len() > 0 && !must_not_neutral(w@) && nva(pos@)),
                    redup,
                    j <= f.len(),
                    r@.len() == f@.len(),
                    forall|q: int|
                        0 <= q < j ==> #[trigger] view_all(r@)[q] == reduplication_neutral(w@, pos@, vf)[q],
                    forall|q: int| j <= q < f.len() ==> #[trigger] view_all(r@)[q] == vf[q],
                decreases f.len() - j,
            {
                assert(view_all(r@)[j as int] == vf[j as int]);
                if 1 <= j && j < w.len() && w[j] == w[j - 1] {
                    retone_at(&mut r, j, '5');
                    assert(view_all(r@)[j as int] == with_tone(vf[j as int], '5'));
                }
                assert(view_all(r@)[j as int] == reduplication_neutral(w@, pos@, vf)[j as int]);
                j = j + 1;
            }
            assert(view_all(r@) =~= reduplication_neutral(w@, pos@, vf));
        }
        let ghost v1 = view_all(r@);
        assert(v1 == reduplication_neutral(w@, pos@, vf));
        if w.len() >= 1 {
            let n = w.len();
            let last = w[n - 1];
            let ends = is_final_particle_exec(last) || last == '的' || last == '地' || last == '得' || (
            n > 1 && (last == '们' || last == '子') && ((pos.len() == 1 && pos[0] == 'r') || (pos.len()
                == 1 && pos[0] == 'n')) && !in_pair_table(&nt, w.as_slice())) || (n > 1 && (last
                == '上' || last == '下' || last == '里') && (pos.len() == 1 && (pos[0] == 's' || pos[0]
                == 'l' || pos[0] == 'f'))) || (n > 1 && (last == '来' || last == '去')
                && is_directional_head_exec(w[n - 2]));
            assert(ends == ends_in_neutral_suffix(w@, pos@));
            if ends {
                last_neutral_exec(&mut r);
            } else {
                let mut g: usize = 0;
                while g < n && w[g] != '个'
                    invariant
                        n == w.len(),
                        g <= n,
                        index_from(w@, '个', 0) == index_from(w@, '个', g as int),
                    decreases n - g,
                {
                    g = g + 1;
                }
                let found = g < n;
                let cls = found && g >= 1 && (('0' <= w[g - 1] && w[g - 1] <= '9')
                    || is_classifier_head_exec(w[g - 1]));
                assert(cls == ge_is_classifier(w@));
                let single_ge = n == 1 && w[0] == '个';
                assert(single_ge == (w@ == seq!['个'])) by {
                    if n == 1 && w@[0] == '个' {
                        assert(w@ =~= seq!['个']);
                    }
                }
                if cls || single_ge {
                    if found && g < r.len() {
                        retone_at(&mut r, g, '5');
                    }
                } else if Self::is_neutral_word_exec(w.as_slice()) {
                    last_neutral_exec(&mut r);
                }
            }
        }
        let ghost v2 = view_all(r@);
        assert(v2 == suffix_neutral(w@, pos@, v1));
        let (a, b) = self.split_word(w);
        let k = a.len();
        if k <= r.len() {
            let mut left = copy_range(&r, 0, k);
            let mut right = copy_range(&r, k, r.len());
            assert(v2.subrange(0, k as int) =~= v2.take(k as int));
            assert(v2.subrange(k as int, v2.len() as int) =~= v2.skip(k as int));
            if Self::is_neutral_word_exec(a.as_slice()) {
                last_neutral_exec(&mut left);
            }
            if Self::is_neutral_word_exec(b.as_slice()) {
                last_neutral_exec(&mut right);
            }
            concat_all(left, &right)
        } else {
            r
        }
    }

    fn three_sandhi_exec(&self, w: &Vec<char>, f: &Vec<Vec<char>>) -> (r: Vec<Vec<char>>)
        ensures
            view_all(r@) == three_sandhi(w@, view_all(f@)),
    {
        let mut r = copy_range(f, 0, f.len());
        let ghost vf = view_all(f@);
        assert(vf.subrange(0, f.len() as int) =~= vf);
        if w.len() == 2 && all_tone_three_exec(f) {
            if r.len() > 0 {
                retone_at(&mut r, 0, '2');
            }
            assert(view_all(r@) == three_sandhi(w@, vf));
            return r;
        }
        if w.len() == 3 {
            let (a, _b) = self.split_word(w);
            let k = a.len();
            assert(split_of(w@).0.len() == k);
            if all_tone_three_exec(f) {
                assert(all_tone_three(vf));
                assert(!(w@.len() == 2 && all_tone_three(vf)));
                if k == 2 && r.len() >= 2 {
                    retone_at(&mut r, 0, '2');
                    let ghost r1 = view_all(r@);
                    assert(r1 == vf.update(0, with_tone(vf[0], '2')));
                    assert(r1[1] == r@[1]@);
                    assert(r@[1]@ == vf[1]);
                    retone_at(&mut r, 1, '2');
                    assert(view_all(r@) =~= vf.update(0, with_tone(vf[0], '2')).update(1, with_tone(vf[1], '2')));
                } else if k == 1 && r.len() >= 2 {
                    retone_at(&mut r, 1, '2');
                    assert(view_all(r@) =~= vf.update(1, with_tone(vf[1], '2')));
                }
                assert(view_all(r@) =~= three_sandhi(w@, vf));
                return r;
            }
            if k < r.len() {
                let mut left = copy_range(&r, 0, k);
                let right0 = copy_range(&r, k, r.len());
                assert(vf.subrange(0, k as int) =~= vf.take(k as int));
                assert(vf.subrange(k as int, vf.len() as int) =~= vf.skip(k as int));
                let ghost b = vf.skip(k as int);
                first_second_exec(&mut left);
                let ghost a1 = view_all(left@);
                assert(a1 == first_second(vf.take(k as int)));
                let mut right = copy_range(&right0, 0, right0.len());
                assert(view_all(right0@).subrange(0, right0.len() as int) =~= view_all(right0@));
                first_second_exec(&mut right);
                assert(view_all(right@) == first_second(b));
                let b_all3 = all_tone_three_exec(&right0);
                assert(view_all(right0@)[0] == right0@[0]@);
                assert(b[0] == right0@[0]@);
                let c = !b_all3 && tone_of_exec(right0[0].as_slice()) == '3' && left.len() > 0
                    && tone_of_exec(left[left.len() - 1].as_slice()) == '3';
                proof {
                    if left.len() > 0 {
                        assert(a1.last() == left@[left.len() - 1]@);
                    }
                    assert(c == (!all_tone_three(b) && tone_of(b[0]) == '3' && a1.len() > 0
                        && tone_of(a1.last()) == '3'));
                }
                if c {
                    let m = left.len() - 1;
                    retone_at(&mut left, m, '2');
                }
                let out = concat_all(left, &right);
                assert(view_all(out@) == three_sandhi(w@, vf));
                return out;
            }
            assert(view_all(r@) == three_sandhi(w@, vf));
            return r;
        }
        if w.len() == 4 && f.len() == 4 {
            let mut left = copy_range(&r, 0, 2);
            let mut right = copy_range(&r, 2, 4);
            assert(vf.subrange(0, 2) =~= vf.take(2));
            assert(vf.subrange(2, 4) =~= vf.skip(2));
            first_second_exec(&mut left);
            first_second_exec(&mut right);
            let out = concat_all(left, &right);
            assert(view_all(out@) == three_sandhi(w@, vf));
            return out;
        }
        r
    }

    /// Applies the per-word sandhi rules to the finals of `word` (one final per character,
    /// each ending in its tone digit).
    pub fn modified_tone(&self, word: &str, pos: &str, finals: Vec<String>) -> (r: Vec<String>)
        ensures
            r@.map_values(|s: String| s@) == modified(word@, pos@, finals@.map_values(|s: String| s@)),
    {
        let w = chars_of(word);
        let p = chars_of(pos);
        let f = chars_of_all(&finals);
        assert(view_all(f@) =~= finals@.map_values(|s: String| s@));
        let r = self.modified_tone_chars(&w, &p, &f);
        let out = strings_of(&r);
        assert(out@.map_values(|s: String| s@) =~= view_all(r@));
        out
    }

    /// `modified_tone` on character vectors.
    pub fn modified_tone_chars(&self, w: &Vec<char>, pos: &Vec<char>, f: &Vec<Vec<char>>) -> (r: Vec<Vec<char>>)
        ensures
            view_all(r@) == modified(w@, pos@, view_all(f@)),
    {
        reveal(modified);
        let f1 = bu_sandhi_exec(w, f);
        let f2 = yi_sandhi_exec(w, &f1);
        let f3 = self.neutral_sandhi_exec(w, pos, &f2);
        self.three_sandhi_exec(w, &f3)
    }
}

/// Words with their part-of-speech tags, as sequences.
pub open spec fn tags_view(v: Seq<(Vec<char>, Vec<char>)>) -> Seq<(Seq<char>, Seq<char>)> {
    v.map_values(|p: (Vec<char>, Vec<char>)| (p.0@, p.1@))
}

pub open spec fn bu_word() -> Seq<char> {
    seq!['不']
}

pub open spec fn yi_word() -> Seq<char> {
    seq!['一']
}

/// `不` merged into the word after it; a trailing `不` stands alone, tagged `d`.
pub open spec fn merge_bu_from(
    seg: Seq<(Seq<char>, Seq<char>)>,
    i: int,
    last: Seq<char>,
    acc: Seq<(Seq<char>, Seq<char>)>,
) -> Seq<(Seq<char>, Seq<char>)>
    decreases seg.len() - i,
{
    if i < 0 || i >= seg.len() {
        if last == bu_word() {
            acc.push((bu_word(), seq!['d']))
        } else {
            acc
        }
    } else {
        let w = if last == bu_word() { bu_word() + seg[i].0 } else { seg[i].0 };
        let acc2 = if w != bu_word() { acc.push((w, seg[i].1)) } else { acc };
        merge_bu_from(seg, i + 1, w, acc2)
    }
}

/// `V 一 V` fused into `V一V`: the `一` and the right-hand verb join the word before.
pub open spec fn merge_yi_from(
    seg: Seq<(Seq<char>, Seq<char>)>,
    i: int,
    acc: Seq<(Seq<char>, Seq<char>)>,
) -> Seq<(Seq<char>, Seq<char>)>
    decreases seg.len() - i,
{
    if i < 0 || i >= seg.len() {
        acc
    } else if i >= 1 && i + 1 < seg.len() && seg[i].0 == yi_word() && seg[i - 1].0 == seg[i + 1].0
        && seg[i - 1].1 == seq!['v'] {
        let acc2 = if acc.len() > 0 {
            acc.update(acc.len() - 1, (acc.last().0 + yi_word() + seg[i + 1].0, acc.last().1))
        } else {
            acc
        };
        merge_yi_from(seg, i + 2, acc2)
    } else {
        merge_yi_from(seg, i + 1, acc.push(seg[i]))
    }
}

/// Empty words dropped; a stand-alone `一` takes the word after it.
pub open spec fn merge_lone_yi_from(
    seg: Seq<(Seq<char>, Seq<char>)>,
    i: int,
    acc: Seq<(Seq<char>, Seq<char>)>,
) -> Seq<(Seq<char>, Seq<char>)>
    decreases seg.len() - i,
{
    if i < 0 || i >= seg.len() {
        acc
    } else {
        let acc2 = if seg[i].0.len() == 0 {
            acc
        } else if acc.len() > 0 && acc.last().0 == yi_word() {
            acc.update(acc.len() - 1, (yi_word() + seg[i].0, acc.last().1))
        } else {
            acc.push(seg[i])
        };
        merge_lone_yi_from(seg, i + 1, acc2)
    }
}

/// Consecutive equal words coalesce.
pub open spec fn merge_redup_from(
    seg: Seq<(Seq<char>, Seq<char>)>,
    i: int,
    acc: Seq<(Seq<char>, Seq<char>)>,
) -> Seq<(Seq<char>, Seq<char>)>
    decreases seg.len() - i,
{
    if i < 0 || i >= seg.len() {
        acc
    } else {
        let acc2 = if acc.len() > 0 && acc.last().0 == seg[i].0 {
            acc.update(acc.len() - 1, (acc.last().0 + seg[i].0, acc.last().1))
        } else {
            acc.push(seg[i])
        };
        merge_redup_from(seg, i + 1, acc2)
    }
}

/// A `儿` after the first word joins the word before it (unless that word is `#`).
pub open spec fn merge_er_from(
    seg: Seq<(Seq<char>, Seq<char>)>,
    i: int,
    acc: Seq<(Seq<char>, Seq<char>)>,
) -> Seq<(Seq<char>, Seq<char>)>
    decreases seg.len() - i,
{
    if i < 0 || i >= seg.len() {
        acc
    } else {
        let acc2 = if i >= 1 && seg[i].0 == seq!['儿'] && acc.len() > 0 && acc.last().0 != seq!['#'] {
            acc.update(acc.len() - 1, (acc.last().0 + seq!['儿'], acc.last().1))
        } else {
            acc.push(seg[i])
        };
        merge_er_from(seg, i + 1, acc2)
    }
}

pub open spec fn is_reduplication(w: Seq<char>) -> bool {
    w.len() == 2 && w[0] == w[1]
}

pub open spec fn first_tone(fs: Seq<Seq<char>>) -> char {
    if fs.len() > 0 { tone_of(fs[0]) } else { '0' }
}

pub open spec fn last_tone(fs: Seq<Seq<char>>) -> char {
    if fs.len() > 0 { tone_of(fs.last()) } else { '0' }
}

/// Whether words `i - 1` and `i` meet in third tones: all syllables of both (`whole`), or
/// the last of the first and the first of the second.
pub open spec fn third_tones_meet(seg: Seq<(Seq<char>, Seq<char>)>, i: int, whole: bool) -> bool {
    let a = crate::g2p::finals_of(seg[i - 1].0);
    let b = crate::g2p::finals_of(seg[i].0);
    if whole {
        all_tone_three(a) && all_tone_three(b)
    } else {
        last_tone(a) == '3' && first_tone(b) == '3'
    }
}

/// Adjacent words meeting in third tones merge, when the left one was not itself merged
/// into, is no reduplication, and the two have at most three characters.
pub open spec fn merge_three_from(
    seg: Seq<(Seq<char>, Seq<char>)>,
    whole: bool,
    i: int,
    prev_merged: bool,
    acc: Seq<(Seq<char>, Seq<char>)>,
) -> Seq<(Seq<char>, Seq<char>)>
    decreases seg.len() - i,
{
    if i < 0 || i >= seg.len() {
        acc
    } else if i >= 1 && third_tones_meet(seg, i, whole) && !prev_merged && acc.len() > 0
        && !is_reduplication(acc.last().0) && acc.last().0.len() + seg[i].0.len() <= 3 {
        merge_three_from(
            seg,
            whole,
            i + 1,
            true,
            acc.update(acc.len() - 1, (acc.last().0 + seg[i].0, acc.last().1)),
        )
    } else {
        merge_three_from(seg, whole, i + 1, false, acc.push(seg[i]))
    }
}

/// The merges that precede per-word sandhi, in order.
pub open spec fn pre_merged(seg: Seq<(Seq<char>, Seq<char>)>) -> Seq<(Seq<char>, Seq<char>)> {
    let s1 = merge_bu_from(seg, 0, seq![], seq![]);
    let s2 = merge_lone_yi_from(merge_yi_from(s1, 0, seq![]), 0, seq![]);
    let s3 = merge_redup_from(s2, 0, seq![]);
    let s4 = merge_three_from(s3, true, 0, false, seq![]);
    let s5 = merge_three_from(s4, false, 0, false, seq![]);
    merge_er_from(s5, 0, seq![])
}

/// The text that a word sequence spells.
pub open spec fn words_text(s: Seq<(Seq<char>, Seq<char>)>) -> Seq<char>
    decreases s.len(),
{
    if s.len() == 0 {
        seq![]
    } else {
        words_text(s.drop_last()) + s.last().0
    }
}

proof fn lemma_words_text_front(e: (Seq<char>, Seq<char>), s: Seq<(Seq<char>, Seq<char>)>)
    ensures
        words_text(seq![e] + s) == e.0 + words_text(s),
    decreases s.len(),
{
    if s.len() == 0 {
        assert(seq![e] + s =~= seq![e]);
        assert(seq![e].drop_last() =~= Seq::<(Seq<char>, Seq<char>)>::empty());
        assert(words_text(Seq::<(Seq<char>, Seq<char>)>::empty()) == Seq::<char>::empty());
        assert(e.0 + Seq::<char>::empty() =~= Seq::<char>::empty() + e.0);
    } else {
        lemma_words_text_front(e, s.drop_last());
        assert((seq![e] + s).drop_last() =~= seq![e] + s.drop_last());
        assert(e.0 + words_text(s.drop_last()) + s.last().0 =~= e.0 + (words_text(s.drop_last()) + s.last().0));
    }
}

proof fn lemma_words_text_step(seg: Seq<(Seq<char>, Seq<char>)>, i: int)
    requires
        0 <= i < seg.len(),
    ensures
        words_text(seg.skip(i)) == seg[i].0 + words_text(seg.skip(i + 1)),
{
    assert(seg.skip(i) =~= seq![seg[i]] + seg.skip(i + 1));
    lemma_words_text_front(seg[i], seg.skip(i + 1));
}

proof fn lemma_words_text_last(acc: Seq<(Seq<char>, Seq<char>)>, x: Seq<char>)
    requires
        acc.len() > 0,
    ensures
        words_text(acc.update(acc.len() - 1, (x, acc.last().1))) == words_text(acc.drop_last()) + x,
{
    assert(acc.update(acc.len() - 1, (x, acc.last().1)).drop_last() =~= acc.drop_last());
}

proof fn lemma_words_text_end(seg: Seq<(Seq<char>, Seq<char>)>, i: int)
    requires
        0 <= i == seg.len(),
    ensures
        words_text(seg.skip(i)) == Seq::<char>::empty(),
{
    assert(seg.skip(i) =~= Seq::<(Seq<char>, Seq<char>)>::empty());
}

proof fn lemma_bu_text(seg: Seq<(Seq<char>, Seq<char>)>, i: int, last: Seq<char>, acc: Seq<(Seq<char>, Seq<char>)>)
    requires
        0 <= i <= seg.len(),
    ensures
        words_text(merge_bu_from(seg, i, last, acc)) == words_text(acc) + (if last == bu_word() { bu_word() } else { seq![] }) + words_text(seg.skip(i)),
    decreases seg.len() - i,
{
    if i >= seg.len() {
        lemma_words_text_end(seg, i);
        if last == bu_word() {
            assert(acc.push((bu_word(), seq!['d'])).drop_last() =~= acc);
        }
        assert(words_text(acc) + (if last == bu_word() { bu_word() } else { seq![] }) + Seq::<char>::empty() =~= words_text(acc) + (if last == bu_word() { bu_word() } else { seq![] }));
        assert(words_text(acc) + Seq::<char>::empty() =~= words_text(acc));
    } else {
        let w = if last == bu_word() { bu_word() + seg[i].0 } else { seg[i].0 };
        let acc2 = if w != bu_word() { acc.push((w, seg[i].1)) } else { acc };
        lemma_bu_text(seg, i + 1, w, acc2);
        lemma_words_text_step(seg, i);
        if w != bu_word() {
            assert(acc.push((w, seg[i].1)).drop_last() =~= acc);
        }
        let p = if last == bu_word() { bu_word() } else { seq![] };
        let p2 = if w == bu_word() { bu_word() } else { seq![] };
        assert(words_text(acc2) + p2 =~= words_text(acc) + p + seg[i].0);
        assert(words_text(acc2) + p2 + words_text(seg.skip(i + 1)) =~= words_text(acc) + p + (seg[i].0 + words_text(seg.skip(i + 1))));
    }
}

proof fn lemma_yi_text(seg: Seq<(Seq<char>, Seq<char>)>, i: int, acc: Seq<(Seq<char>, Seq<char>)>)
    requires
        0 <= i <= seg.len(),
        i >= 1 ==> acc.len() > 0,
    ensures
        words_text(merge_yi_from(seg, i, acc)) == words_text(acc) + words_text(seg.skip(i)),
    decreases seg.len() - i,
{
    if i >= seg.len() {
        lemma_words_text_end(seg, i);
        assert(words_text(acc) + Seq::<char>::empty() =~= words_text(acc));
    } else if i >= 1 && i + 1 < seg.len() && seg[i].0 == yi_word() && seg[i - 1].0 == seg[i + 1].0
        && seg[i - 1].1 == seq!['v'] {
        let x = acc.last().0 + yi_word() + seg[i + 1].0;
        let acc2 = acc.update(acc.len() - 1, (x, acc.last().1));
        lemma_yi_text(seg, i + 2, acc2);
        lemma_words_text_last(acc, x);
        lemma_words_text_last(acc, acc.last().0);
        assert(acc.update(acc.len() - 1, (acc.last().0, acc.last().1)) =~= acc);
        lemma_words_text_step(seg, i);
        lemma_words_text_step(seg, i + 1);
        assert(words_text(acc2) + words_text(seg.skip(i + 2)) =~= words_text(acc) + (seg[i].0 + (seg[i + 1].0 + words_text(seg.skip(i + 2)))));
    } else {
        lemma_yi_text(seg, i + 1, acc.push(seg[i]));
        assert(acc.push(seg[i]).drop_last() =~= acc);
        lemma_words_text_step(seg, i);
        assert(words_text(acc.push(seg[i])) + words_text(seg.skip(i + 1)) =~= words_text(acc) + (seg[i].0 + words_text(seg.skip(i + 1))));
    }
}

/// Shared step of the folds that either join a word to the last entry or push it.
proof fn lemma_join_or_push(acc: Seq<(Seq<char>, Seq<char>)>, acc2: Seq<(Seq<char>, Seq<char>)>, e: (Seq<char>, Seq<char>))
    requires
        acc2 == acc.push(e) || (acc.len() > 0 && acc2 == acc.update(acc.len() - 1, (acc.last().0 + e.0, acc.last().1))),
    ensures
        words_text(acc2) == words_text(acc) + e.0,
{
    if acc2 == acc.push(e) {
        assert(acc.push(e).drop_last() =~= acc);
    } else {
        lemma_words_text_last(acc, acc.last().0 + e.0);
        lemma_words_text_last(acc, acc.last().0);
        assert(acc.update(acc.len() - 1, (acc.last().0, acc.last().1)) =~= acc);
        assert(words_text(acc.drop_last()) + (acc.last().0 + e.0) =~= words_text(acc.drop_last()) + acc.last().0 + e.0);
    }
}

proof fn lemma_lone_yi_text(seg: Seq<(Seq<char>, Seq<char>)>, i: int, acc: Seq<(Seq<char>, Seq<char>)>)
    requires
        0 <= i <= seg.len(),
    ensures
        words_text(merge_lone_yi_from(seg, i, acc)) == words_text(acc) + words_text(seg.skip(i)),
    decreases seg.len() - i,
{
    if i >= seg.len() {
        lemma_words_text_end(seg, i);
        assert(words_text(acc) + Seq::<char>::empty() =~= words_text(acc));
    } else {
        let acc2 = if seg[i].0.len() == 0 {
            acc
        } else if acc.len() > 0 && acc.last().0 == yi_word() {
            acc.update(acc.len() - 1, (yi_word() + seg[i].0, acc.last().1))
        } else {
            acc.push(seg[i])
        };
        lemma_lone_yi_text(seg, i + 1, acc2);
        lemma_words_text_step(seg, i);
        if seg[i].0.len() == 0 {
            assert(words_text(acc) + seg[i].0 =~= words_text(acc));
        } else {
            lemma_join_or_push(acc, acc2, seg[i]);
        }
        assert(words_text(acc2) + words_text(seg.skip(i + 1)) =~= words_text(acc) + (seg[i].0 + words_text(seg.skip(i + 1))));
    }
}

proof fn lemma_redup_text(seg: Seq<(Seq<char>, Seq<char>)>, i: int, acc: Seq<(Seq<char>, Seq<char>)>)
    requires
        0 <= i <= seg.len(),
    ensures
        words_text(merge_redup_from(seg, i, acc)) == words_text(acc) + words_text(seg.skip(i)),
    decreases seg.len() - i,
{
    if i >= seg.len() {
        lemma_words_text_end(seg, i);
        assert(words_text(acc) + Seq::<char>::empty() =~= words_text(acc));
    } else {
        let acc2 = if acc.len() > 0 && acc.last().0 == seg[i].0 {
            acc.update(acc.len() - 1, (acc.last().0 + seg[i].0, acc.last().1))
        } else {
            acc.push(seg[i])
        };
        lemma_redup_text(seg, i + 1, acc2);
        lemma_words_text_step(seg, i);
        lemma_join_or_push(acc, acc2, seg[i]);
        assert(words_text(acc2) + words_text(seg.skip(i + 1)) =~= words_text(acc) + (seg[i].0 + words_text(seg.skip(i + 1))));
    }
}

proof fn lemma_er_text(seg: Seq<(Seq<char>, Seq<char>)>, i: int, acc: Seq<(Seq<char>, Seq<char>)>)
    requires
        0 <= i <= seg.len(),
    ensures
        words_text(merge_er_from(seg, i, acc)) == words_text(acc) + words_text(seg.skip(i)),
    decreases seg.len() - i,
{
    if i >= seg.len() {
        lemma_words_text_end(seg, i);
        assert(words_text(acc) + Seq::<char>::empty() =~= words_text(acc));
    } else {
        let acc2 = if i >= 1 && seg[i].0 == seq!['儿'] && acc.len() > 0 && acc.last().0 != seq!['#'] {
            acc.update(acc.len() - 1, (acc.last().0 + seq!['儿'], acc.last().1))
        } else {
            acc.push(seg[i])
        };
        lemma_er_text(seg, i + 1, acc2);
        lemma_words_text_step(seg, i);
        lemma_join_or_push(acc, acc2, seg[i]);
        assert(words_text(acc2) + words_text(seg.skip(i + 1)) =~= words_text(acc) + (seg[i].0 + words_text(seg.skip(i + 1))));
    }
}

proof fn lemma_three_text(seg: Seq<(Seq<char>, Seq<char>)>, whole: bool, i: int, prev: bool, acc: Seq<(Seq<char>, Seq<char>)>)
    requires
        0 <= i <= seg.len(),
    ensures
        words_text(merge_three_from(seg, whole, i, prev, acc)) == words_text(acc) + words_text(seg.skip(i)),
    decreases seg.len() - i,
{
    if i >= seg.len() {
        lemma_words_text_end(seg, i);
        assert(words_text(acc) + Seq::<char>::empty() =~= words_text(acc));
    } else {
        let join = i >= 1 && third_tones_meet(seg, i, whole) && !prev && acc.len() > 0
            && !is_reduplication(acc.last().0) && acc.last().0.len() + seg[i].0.len() <= 3;
        let acc2 = if join {
            acc.update(acc.len() - 1, (acc.last().0 + seg[i].0, acc.last().1))
        } else {
            acc.push(seg[i])
        };
        lemma_three_text(seg, whole, i + 1, join, acc2);
        lemma_words_text_step(seg, i);
        lemma_join_or_push(acc, acc2, seg[i]);
        assert(words_text(acc2) + words_text(seg.skip(i + 1)) =~= words_text(acc) + (seg[i].0 + words_text(seg.skip(i + 1))));
    }
}

/// The merges before sandhi only join neighbouring words: the merged words spell exactly
/// the text of the input words.
pub proof fn lemma_pre_merge_keeps_text(seg: Seq<(Seq<char>, Seq<char>)>)
    ensures
        words_text(pre_merged(seg)) == words_text(seg),
{
    let e = Seq::<(Seq<char>, Seq<char>)>::empty();
    assert(words_text(e) == Seq::<char>::empty());
    let s1 = merge_bu_from(seg, 0, seq![], seq![]);
    lemma_bu_text(seg, 0, seq![], seq![]);
    assert(seg.skip(0) =~= seg);
    assert(seq!['不'] != Seq::<char>::empty()) by {
        assert(seq!['不'].len() == 1);
    }
    assert(words_text(s1) =~= words_text(seg));
    let y = merge_yi_from(s1, 0, seq![]);
    lemma_yi_text(s1, 0, seq![]);
    assert(s1.skip(0) =~= s1);
    assert(words_text(y) =~= words_text(s1));
    let s2 = merge_lone_yi_from(y, 0, seq![]);
    lemma_lone_yi_text(y, 0, seq![]);
    assert(y.skip(0) =~= y);
    assert(words_text(s2) =~= words_text(y));
    let s3 = merge_redup_from(s2, 0, seq![]);
    lemma_redup_text(s2, 0, seq![]);
    assert(s2.skip(0) =~= s2);
    assert(words_text(s3) =~= words_text(s2));
    let s4 = merge_three_from(s3, true, 0, false, seq![]);
    lemma_three_text(s3, true, 0, false, seq![]);
    assert(s3.skip(0) =~= s3);
    assert(words_text(s4) =~= words_text(s3));
    let s5 = merge_three_from(s4, false, 0, false, seq![]);
    lemma_three_text(s4, false, 0, false, seq![]);
    assert(s4.skip(0) =~= s4);
    assert(words_text(s5) =~= words_text(s4));
    lemma_er_text(s5, 0, seq![]);
    assert(s5.skip(0) =~= s5);
}

fn copy_tag(p: &(Vec<char>, Vec<char>)) -> (r: (Vec<char>, Vec<char>))
    ensures
        (r.0@, r.1@) == (p.0@, p.1@),
{
    (to_vec_chars(p.0.as_slice()), to_vec_chars(p.1.as_slice()))
}

fn is_word(w: &[char], c: char) -> (r: bool)
    ensures
        r == (w@ == seq![c]),
{
    let r = w.len() == 1 && w[0] == c;
    proof {
        if w.len() == 1 && w@[0] == c {
            assert(w@ =~= seq![c]);
        }
    }
    r
}

/// Replaces the word of the last entry.
fn set_last_word(acc: &mut Vec<(Vec<char>, Vec<char>)>, w: Vec<char>)
    requires
        old(acc).len() > 0,
    ensures
        tags_view(final(acc)@) == tags_view(old(acc)@).update(
            old(acc).len() - 1,
            (w@, old(acc)@.last().1@),
        ),
{
    let n = acc.len() - 1;
    let pos = to_vec_chars(acc[n].1.as_slice());
    acc.set(n, (w, pos));
    assert(tags_view(acc@) =~= tags_view(old(acc)@).update(n as int, (w@, old(acc)@.last().1@)));
}

fn joined(a: &[char], b: &[char]) -> (r: Vec<char>)
    ensures
        r@ == a@ + b@,
{
    let mut r = to_vec_chars(a);
    crate::text::append_chars(&mut r, b);
    r
}

fn merge_bu(seg: &Vec<(Vec<char>, Vec<char>)>) -> (r: Vec<(Vec<char>, Vec<char>)>)
    ensures
        tags_view(r@) == merge_bu_from(tags_view(seg@), 0, seq![], seq![]),
{
    let ghost sv = tags_view(seg@);
    let mut acc: Vec<(Vec<char>, Vec<char>)> = Vec::new();
    let mut last: Vec<char> = Vec::new();
    let mut i: usize = 0;
    assert(tags_view(acc@) =~= seq![]);
    while i < seg.len()
        invariant
            sv == tags_view(seg@),
            i <= seg.len(),
            merge_bu_from(sv, i as int, last@, tags_view(acc@)) == merge_bu_from(sv, 0, seq![], seq![]),
        decreases seg.len() - i,
    {
        let w = if is_word(last.as_slice(), '不') {
            joined(last.as_slice(), seg[i].0.as_slice())
        } else {
            to_vec_chars(seg[i].0.as_slice())
        };
        if !is_word(w.as_slice(), '不') {
            let ghost a0 = tags_view(acc@);
            acc.push((to_vec_chars(w.as_slice()), to_vec_chars(seg[i].1.as_slice())));
            assert(tags_view(acc@) =~= a0.push((w@, sv[i as int].1)));
        }
        last = w;
        i = i + 1;
    }
    if is_word(last.as_slice(), '不') {
        let ghost a0 = tags_view(acc@);
        let d = vec!['d'];
        assert(d@ =~= seq!['d']);
        assert(last@ == bu_word());
        acc.push((last, d));
        assert(tags_view(acc@) =~= a0.push((bu_word(), seq!['d'])));
    }
    acc
}

fn merge_yi(seg: &Vec<(Vec<char>, Vec<char>)>) -> (r: Vec<(Vec<char>, Vec<char>)>)
    ensures
        tags_view(r@) == merge_lone_yi_from(merge_yi_from(tags_view(seg@), 0, seq![]), 0, seq![]),
{
    let ghost sv = tags_view(seg@);
    let mut acc: Vec<(Vec<char>, Vec<char>)> = Vec::new();
    let mut i: usize = 0;
    assert(tags_view(acc@) =~= seq![]);
    while i < seg.len()
        invariant
            sv == tags_view(seg@),
            i <= seg.len() + 1,
            merge_yi_from(sv, i as int, tags_view(acc@)) == merge_yi_from(sv, 0, seq![]),
        decreases seg.len() + 1 - i,
    {
        let ghost a0 = tags_view(acc@);
        if i >= 1 && i + 1 < seg.len() && is_word(seg[i].0.as_slice(), '一') && chars_eq(
            seg[i - 1].0.as_slice(),
            seg[i + 1].0.as_slice(),
        ) && is_word(seg[i - 1].1.as_slice(), 'v') {
            if acc.len() > 0 {
                let n = acc.len() - 1;
                let mut w = joined(acc[n].0.as_slice(), ['一'].as_slice());
                assert(['一']@ =~= yi_word());
                crate::text::append_chars(&mut w, seg[i + 1].0.as_slice());
                set_last_word(&mut acc, w);
            }
            i = i + 2;
        } else {
            acc.push(copy_tag(&seg[i]));
            assert(tags_view(acc@) =~= a0.push(sv[i as int]));
            i = i + 1;
        }
    }
    let mid = acc;
    let ghost mv = tags_view(mid@);
    let mut out: Vec<(Vec<char>, Vec<char>)> = Vec::new();
    let mut j: usize = 0;
    assert(tags_view(out@) =~= seq![]);
    while j < mid.len()
        invariant
            mv == tags_view(mid@),
            j <= mid.len(),
            merge_lone_yi_from(mv, j as int, tags_view(out@)) == merge_lone_yi_from(mv, 0, seq![]),
        decreases mid.len() - j,
    {
        let ghost a0 = tags_view(out@);
        if mid[j].0.len() == 0 {
        } else if out.len() > 0 && is_word(out[out.len() - 1].0.as_slice(), '一') {
            let n = out.len() - 1;
            let w = joined(out[n].0.as_slice(), mid[j].0.as_slice());
            set_last_word(&mut out, w);
        } else {
            out.push(copy_tag(&mid[j]));
            assert(tags_view(out@) =~= a0.push(mv[j as int]));
        }
        j = j + 1;
    }
    out
}

fn merge_redup(seg: &Vec<(Vec<char>, Vec<char>)>) -> (r: Vec<(Vec<char>, Vec<char>)>)
    ensures
        tags_view(r@) == merge_redup_from(tags_view(seg@), 0, seq![]),
{
    let ghost sv = tags_view(seg@);
    let mut out: Vec<(Vec<char>, Vec<char>)> = Vec::new();
    let mut j: usize = 0;
    assert(tags_view(out@) =~= seq![]);
    while j < seg.len()
        invariant
            sv == tags_view(seg@),
            j <= seg.len(),
            merge_redup_from(sv, j as int, tags_view(out@)) == merge_redup_from(sv, 0, seq![]),
        decreases seg.len() - j,
    {
        let ghost a0 = tags_view(out@);
        if out.len() > 0 && chars_eq(out[out.len() - 1].0.as_slice(), seg[j].0.as_slice()) {
            let n = out.len() - 1;
            let w = joined(out[n].0.as_slice(), seg[j].0.as_slice());
            set_last_word(&mut out, w);
        } else {
            out.push(copy_tag(&seg[j]));
            assert(tags_view(out@) =~= a0.push(sv[j as int]));
        }
        j = j + 1;
    }
    out
}

fn merge_er(seg: &Vec<(Vec<char>, Vec<char>)>) -> (r: Vec<(Vec<char>, Vec<char>)>)
    ensures
        tags_view(r@) == merge_er_from(tags_view(seg@), 0, seq![]),
{
    let ghost sv = tags_view(seg@);
    let mut out: Vec<(Vec<char>, Vec<char>)> = Vec::new();
    let mut j: usize = 0;
    assert(tags_view(out@) =~= seq![]);
    while j < seg.len()
        invariant
            sv == tags_view(seg@),
            j <= seg.len(),
            merge_er_from(sv, j as int, tags_view(out@)) == merge_er_from(sv, 0, seq![]),
        decreases seg.len() - j,
    {
        let ghost a0 = tags_view(out@);
        if j >= 1 && is_word(seg[j].0.as_slice(), '儿') && out.len() > 0 && !is_word(
            out[out.len() - 1].0.as_slice(),
            '#',
        ) {
            let n = out.len() - 1;
            let w = joined(out[n].0.as_slice(), ['儿'].as_slice());
            assert(['儿']@ =~= seq!['儿']);
            set_last_word(&mut out, w);
        } else {
            out.push(copy_tag(&seg[j]));
            assert(tags_view(out@) =~= a0.push(sv[j as int]));
        }
        j = j + 1;
    }
    out
}

fn merge_three(seg: &Vec<(Vec<char>, Vec<char>)>, whole: bool) -> (r: Vec<(Vec<char>, Vec<char>)>)
    ensures
        tags_view(r@) == merge_three_from(tags_view(seg@), whole, 0, false, seq![]),
{
    let ghost sv = tags_view(seg@);
    let mut finals: Vec<Vec<Vec<char>>> = Vec::new();
    let mut k: usize = 0;
    while k < seg.len()
        invariant
            sv == tags_view(seg@),
            k <= seg.len(),
            finals@.len() == k,
            forall|q: int|
                0 <= q < k ==> view_all(#[trigger] finals@[q]@) == crate::g2p::finals_of(sv[q].0),
        decreases seg.len() - k,
    {
        finals.push(crate::g2p::finals_with_tone_chars(seg[k].0.as_slice()));
        k = k + 1;
    }
    let mut out: Vec<(Vec<char>, Vec<char>)> = Vec::new();
    let mut prev = false;
    let mut j: usize = 0;
    assert(tags_view(out@) =~= seq![]);
    while j < seg.len()
        invariant
            sv == tags_view(seg@),
            finals@.len() == seg.len(),
            forall|q: int|
                0 <= q < seg.len() ==> view_all(#[trigger] finals@[q]@) == crate::g2p::finals_of(sv[q].0),
            j <= seg.len(),
            merge_three_from(sv, whole, j as int, prev, tags_view(out@)) == merge_three_from(
                sv,
                whole,
                0,
                false,
                seq![],
            ),
        decreases seg.len() - j,
    {
        let ghost a0 = tags_view(out@);
        let meet = if j >= 1 {
            let a = &finals[j - 1];
            let b = &finals[j];
            if whole {
                all_tone_three_exec(a) && all_tone_three_exec(b)
            } else {
                let ta = if a.len() > 0 { tone_of_exec(a[a.len() - 1].as_slice()) } else { '0' };
                let tb = if b.len() > 0 { tone_of_exec(b[0].as_slice()) } else { '0' };
                proof {
                    if a.len() > 0 {
                        assert(view_all(a@).last() == a@[a.len() - 1]@);
                    }
                    if b.len() > 0 {
                        assert(view_all(b@)[0] == b@[0]@);
                    }
                }
                ta == '3' && tb == '3'
            }
        } else {
            false
        };
        assert(j >= 1 ==> meet == third_tones_meet(sv, j as int, whole));
        if j >= 1 && meet && !prev && out.len() > 0 && !(out[out.len() - 1].0.len() == 2
            && out[out.len() - 1].0[0] == out[out.len() - 1].0[1]) && out[out.len() - 1].0.len()
            <= 3 && seg[j].0.len() <= 3 - out[out.len() - 1].0.len() {
            let n = out.len() - 1;
            let w = joined(out[n].0.as_slice(), seg[j].0.as_slice());
            set_last_word(&mut out, w);
            prev = true;
        } else {
            out.push(copy_tag(&seg[j]));
            assert(tags_view(out@) =~= a0.push(sv[j as int]));
            prev = false;
        }
        j = j + 1;
    }
    out
}

impl ToneSandhi {
    /// Merges `不`, `一`, reduplications, third-tone runs and `儿` into the words they
    /// belong to, before per-word sandhi.
    pub fn pre_merge_for_modify(&self, seg: Vec<(String, String)>) -> (r: Vec<(String, String)>)
        ensures
            r@.map_values(|p: (String, String)| (p.0@, p.1@)) == pre_merged(
                seg@.map_values(|p: (String, String)| (p.0@, p.1@)),
            ),
    {
        let mut v: Vec<(Vec<char>, Vec<char>)> = Vec::new();
        let mut i: usize = 0;
        while i < seg.len()
            invariant
                i <= seg.len(),
                tags_view(v@) == seg@.map_values(|p: (String, String)| (p.0@, p.1@)).take(i as int),
            decreases seg.len() - i,
        {
            v.push((chars_of(seg[i].0.as_str()), chars_of(seg[i].1.as_str())));
            i = i + 1;
            assert(tags_view(v@) =~= seg@.map_values(|p: (String, String)| (p.0@, p.1@)).take(i as int));
        }
        assert(seg@.map_values(|p: (String, String)| (p.0@, p.1@)).take(i as int) =~= seg@.map_values(
            |p: (String, String)| (p.0@, p.1@),
        ));
        let m = pre_merge_chars(&v);
        let mut out: Vec<(String, String)> = Vec::new();
        let mut j: usize = 0;
        while j < m.len()
            invariant
                j <= m.len(),
                out@.map_values(|p: (String, String)| (p.0@, p.1@)) == tags_view(m@).take(j as int),
            decreases m.len() - j,
        {
            out.push((string_of(m[j].0.as_slice()), string_of(m[j].1.as_slice())));
            j = j + 1;
            assert(out@.map_values(|p: (String, String)| (p.0@, p.1@)) =~= tags_view(m@).take(j as int));
        }
        assert(tags_view(m@).take(j as int) =~= tags_view(m@));
        out
    }
}

/// `pre_merge_for_modify` on character vectors.
pub fn pre_merge_chars(seg: &Vec<(Vec<char>, Vec<char>)>) -> (r: Vec<(Vec<char>, Vec<char>)>)
    ensures
        tags_view(r@) == pre_merged(tags_view(seg@)),
{
    let s1 = merge_bu(seg);
    let s2 = merge_yi(&s1);
    let s3 = merge_redup(&s2);
    let s4 = merge_three(&s3, true);
    let s5 = merge_three(&s4, false);
    merge_er(&s5)
}

} // verus!
