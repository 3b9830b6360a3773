//! The prompts the MCP server offers to agents: fixed instructions for
//! filtering text and updating state, and the step-by-step workflows for
//! analysing a character card or a preset.
use vstd::prelude::*;
use crate::text::push_str;

verus! {

broadcast use vstd::string::group_string_axioms;

/// The instructions of the text-filtering agent: keep the narrative, strip
/// metadata tags and editorial marks, change nothing else.
pub fn filter_text_prompt() -> (r: String)
    ensures
        r@ == "你是文本筛选 Agent。给定主 LLM 输出片段，你的任务：\n1. 保留小说正文（叙述、对话、动作描写）\n2. 剥除：<think>/<thought>/<status> 等元数据标签及其内容\n3. 剥除：[卷评估]/[OOC]/[Author Note] 等编辑标记\n4. 不改写正文一字\n5. 输出格式：纯文本（无解释、无前缀）"@,
{
    let mut s = String::new();
    push_str(&mut s, "你是文本筛选 Agent。给定主 LLM 输出片段，你的任务：\n1. 保留小说正文（叙述、对话、动作描写）\n2. 剥除：<think>/<thought>/<status> 等元数据标签及其内容\n3. 剥除：[卷评估]/[OOC]/[Author Note] 等编辑标记\n4. 不改写正文一字\n5. 输出格式：纯文本（无解释、无前缀）");
    s
}

/// The instruction to end each reply with the game state as JSON in a
/// `<state>` tag.
pub fn state_update_prompt() -> (r: String)
    ensures
        r@ == "本轮回复结束前，请在 <state>{...JSON...}</state> 标签内输出当前游戏状态更新。\n字段示例（缺失字段可省略）：\n{ \"hp\": 80, \"mp\": 50, \"time\": \"晌午\", \"location\": \"客栈大堂\", \"npcs\": [\"张三\"], \"quest\": \"打听消息\" }\n若本轮状态未变化，可省略此标签。"@,
{
    let mut s = String::new();
    push_str(&mut s, "本轮回复结束前，请在 <state>{...JSON...}</state> 标签内输出当前游戏状态更新。\n字段示例（缺失字段可省略）：\n{ \"hp\": 80, \"mp\": 50, \"time\": \"晌午\", \"location\": \"客栈大堂\", \"npcs\": [\"张三\"], \"quest\": \"打听消息\" }\n若本轮状态未变化，可省略此标签。");
    s
}

/// The state-update instruction (see [`state_update_prompt`]).
pub fn state_update_prompt_for_test() -> (r: String)
    ensures
        r@ == "本轮回复结束前，请在 <state>{...JSON...}</state> 标签内输出当前游戏状态更新。\n字段示例（缺失字段可省略）：\n{ \"hp\": 80, \"mp\": 50, \"time\": \"晌午\", \"location\": \"客栈大堂\", \"npcs\": [\"张三\"], \"quest\": \"打听消息\" }\n若本轮状态未变化，可省略此标签。"@,
{
    state_update_prompt()
}

/// The workflow for analysing the character `character_id`: confirm the
/// target, read the card and lorebook, write the analysis artifacts, infer a
/// state schema when the card tracks state, and verify.
pub fn analyze_character_card_prompt(character_id: &str) -> (r: String)
    ensures
        r@ == "你是角色卡分析 Agent。请按以下步骤分析角色 `"@ + character_id@ + "`：\n\n**步骤 0：歧义自检（必做，先于一切读取）**\n在分析前，先确认 `"@ + character_id@ + "` 确实是用户**本次明确指定**要拆解的对象。若用户描述模糊（如\"拆解我的角色卡\"未指明是哪一个），**必须停下来询问用户**，不得擅自假设：\n- 要拆的是**已存入 airp 的角色**（`airp://characters` 列表中的条目）？还是\n- 用户**本次新提供、尚未存入**的文件（如工作目录下的 .json / .png）？\n若属后者，应先 `import_card` 导入再分析，或直接读取用户提供的文件 —— **切勿**把 `airp://characters` 列表里的历史条目无差别全部拆解。确认无误后再进入步骤 1。\n\n**步骤 1：读取角色卡**\n读取资源 `airp://characters/"@ + character_id@ + "/card`，获取完整 TavernV2 JSON。\n\n**步骤 2：读取世界书（可选）**\n读取资源 `airp://characters/"@ + character_id@ + "/world/lorebook`，分析关键词与条目。\n\n**步骤 3：生成分析产物**（依次调用 `write_character_artifact`）\n- `analysis/profile.md` — 角色性格、背景、说话风格、禁忌/规则摘要\n- `analysis/tier.json` — 复杂度分级 JSON（见下方格式）\n- `style/guide.md` — 文风提炼（用词、句式、语气特征、典型句型示例）\n- `cot/strategy.md` — RP CoT 策略（如何维持角色一致性、如何处理边界情形）\n\n**tier.json 格式**：\n```json\n{\n\"tier\": 1,\n\"label\": \"简单\",\n\"reasoning\": \"角色规则简单，无复杂世界设定\",\n\"lorebook_entries\": 0,\n\"has_custom_rules\": false,\n\"has_state_tracking\": false\n}\n```\n等级说明：\n- Tier 1（简单）：基础性格，无定制规则，lorebook ≤ 5 条\n- Tier 2（中等）：有世界书 6~20 条，或有部分定制规则\n- Tier 3（复杂）：lorebook > 20 条，或有状态追踪，或有复杂剧情分支\n- Tier 4（极复杂）：多角色场景，定制输出结构，状态机\n\n**步骤 4：状态 schema 推断（M_LS LS-7，仅 has_state_tracking=true 时执行）**\n若角色卡存在状态追踪（时间/数值/位置等动态字段），调用 `write_character_artifact` 写入：\n- `state/schema.json` — 状态字段 schema，格式：\n```json\n{\n\"fields\": [\n{\"key\": \"hp\", \"type\": \"number\", \"min\": 0, \"max\": 100, \"label\": \"生命值\"},\n{\"key\": \"location\", \"type\": \"string\", \"label\": \"当前位置\"},\n{\"key\": \"time\", \"type\": \"string\", \"label\": \"时间\"}\n]\n}\n```\n字段说明：`key`=状态 JSON 键名；`type`=number|string|array|boolean；\n`min`/`max` 仅对 number 类型；`label` 为中文显示名称。\n若 has_state_tracking=false，跳过此步骤。\n\n**步骤 5：验证**\n读取 `airp://characters/"@ + character_id@ + "/artifacts`，确认所有产物路径已出现。"@,
{
    let mut s = String::new();
    push_str(&mut s, "你是角色卡分析 Agent。请按以下步骤分析角色 `");
    push_str(&mut s, character_id);
    push_str(&mut s, "`：\n\n**步骤 0：歧义自检（必做，先于一切读取）**\n在分析前，先确认 `");
    push_str(&mut s, character_id);
    push_str(&mut s, "` 确实是用户**本次明确指定**要拆解的对象。若用户描述模糊（如\"拆解我的角色卡\"未指明是哪一个），**必须停下来询问用户**，不得擅自假设：\n- 要拆的是**已存入 airp 的角色**（`airp://characters` 列表中的条目）？还是\n- 用户**本次新提供、尚未存入**的文件（如工作目录下的 .json / .png）？\n若属后者，应先 `import_card` 导入再分析，或直接读取用户提供的文件 —— **切勿**把 `airp://characters` 列表里的历史条目无差别全部拆解。确认无误后再进入步骤 1。\n\n**步骤 1：读取角色卡**\n读取资源 `airp://characters/");
    push_str(&mut s, character_id);
    push_str(&mut s, "/card`，获取完整 TavernV2 JSON。\n\n**步骤 2：读取世界书（可选）**\n读取资源 `airp://characters/");
    push_str(&mut s, character_id);
    push_str(&mut s, "/world/lorebook`，分析关键词与条目。\n\n**步骤 3：生成分析产物**（依次调用 `write_character_artifact`）\n- `analysis/profile.md` — 角色性格、背景、说话风格、禁忌/规则摘要\n- `analysis/tier.json` — 复杂度分级 JSON（见下方格式）\n- `style/guide.md` — 文风提炼（用词、句式、语气特征、典型句型示例）\n- `cot/strategy.md` — RP CoT 策略（如何维持角色一致性、如何处理边界情形）\n\n**tier.json 格式**：\n```json\n{\n\"tier\": 1,\n\"label\": \"简单\",\n\"reasoning\": \"角色规则简单，无复杂世界设定\",\n\"lorebook_entries\": 0,\n\"has_custom_rules\": false,\n\"has_state_tracking\": false\n}\n```\n等级说明：\n- Tier 1（简单）：基础性格，无定制规则，lorebook ≤ 5 条\n- Tier 2（中等）：有世界书 6~20 条，或有部分定制规则\n- Tier 3（复杂）：lorebook > 20 条，或有状态追踪，或有复杂剧情分支\n- Tier 4（极复杂）：多角色场景，定制输出结构，状态机\n\n**步骤 4：状态 schema 推断（M_LS LS-7，仅 has_state_tracking=true 时执行）**\n若角色卡存在状态追踪（时间/数值/位置等动态字段），调用 `write_character_artifact` 写入：\n- `state/schema.json` — 状态字段 schema，格式：\n```json\n{\n\"fields\": [\n{\"key\": \"hp\", \"type\": \"number\", \"min\": 0, \"max\": 100, \"label\": \"生命值\"},\n{\"key\": \"location\", \"type\": \"string\", \"label\": \"当前位置\"},\n{\"key\": \"time\", \"type\": \"string\", \"label\": \"时间\"}\n]\n}\n```\n字段说明：`key`=状态 JSON 键名；`type`=number|string|array|boolean；\n`min`/`max` 仅对 number 类型；`label` 为中文显示名称。\n若 has_state_tracking=false，跳过此步骤。\n\n**步骤 5：验证**\n读取 `airp://characters/");
    push_str(&mut s, character_id);
    push_str(&mut s, "/artifacts`，确认所有产物路径已出现。");
    s
}

/// The workflow for analysing the preset `preset_id`: confirm the target,
/// read the raw preset, write the analysis artifacts and verify.
pub fn analyze_preset_prompt(preset_id: &str) -> (r: String)
    ensures
        r@ == "你是预设分析 Agent。请按以下步骤分析预设 `"@ + preset_id@ + "`：\n\n**步骤 0：歧义自检（必做，先于一切读取）**\n在分析前，先确认 `"@ + preset_id@ + "` 确实是用户**本次明确指定**要拆解的对象。若用户描述模糊（如\"拆解我的预设\"未指明是哪一个），**必须停下来询问用户**，不得擅自假设：\n- 要拆的是**已存入 airp 的预设**（`airp://presets` 列表中的条目）？还是\n- 用户**本次新提供、尚未存入**的文件（如工作目录下的 .json）？\n若属后者，应先 `import_preset` 导入再分析，或直接读取用户提供的文件 —— **切勿**把 `airp://presets` 列表里的历史条目无差别全部拆解。确认无误后再进入步骤 1。\n\n**步骤 1：读取预设**\n读取资源 `airp://presets/"@ + preset_id@ + "/raw`，获取完整 SillyTavern Preset JSON 原文。\n\n**步骤 2：生成分析产物**（依次调用 `write_preset_artifact`）\n- `analysis/summary.md` — Prompt 列表、顺序、各段用途说明\n- `analysis/regex_scripts.json` — 正则过滤脚本 JSON 数组（每项含 name / pattern / flags / purpose）\n- `style/instructions.md` — 提取出的写作指令（文风、格式要求、禁忌）\n\n**步骤 3：验证**\n读取 `airp://presets/"@ + preset_id@ + "/artifacts`，确认所有产物路径已出现。"@,
{
    let mut s = String::new();
    push_str(&mut s, "你是预设分析 Agent。请按以下步骤分析预设 `");
    push_str(&mut s, preset_id);
    push_str(&mut s, "`：\n\n**步骤 0：歧义自检（必做，先于一切读取）**\n在分析前，先确认 `");
    push_str(&mut s, preset_id);
    push_str(&mut s, "` 确实是用户**本次明确指定**要拆解的对象。若用户描述模糊（如\"拆解我的预设\"未指明是哪一个），**必须停下来询问用户**，不得擅自假设：\n- 要拆的是**已存入 airp 的预设**（`airp://presets` 列表中的条目）？还是\n- 用户**本次新提供、尚未存入**的文件（如工作目录下的 .json）？\n若属后者，应先 `import_preset` 导入再分析，或直接读取用户提供的文件 —— **切勿**把 `airp://presets` 列表里的历史条目无差别全部拆解。确认无误后再进入步骤 1。\n\n**步骤 1：读取预设**\n读取资源 `airp://presets/");
    push_str(&mut s, preset_id);
    push_str(&mut s, "/raw`，获取完整 SillyTavern Preset JSON 原文。\n\n**步骤 2：生成分析产物**（依次调用 `write_preset_artifact`）\n- `analysis/summary.md` — Prompt 列表、顺序、各段用途说明\n- `analysis/regex_scripts.json` — 正则过滤脚本 JSON 数组（每项含 name / pattern / flags / purpose）\n- `style/instructions.md` — 提取出的写作指令（文风、格式要求、禁忌）\n\n**步骤 3：验证**\n读取 `airp://presets/");
    push_str(&mut s, preset_id);
    push_str(&mut s, "/artifacts`，确认所有产物路径已出现。");
    s
}

} // verus!
